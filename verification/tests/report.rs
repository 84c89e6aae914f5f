use crate_docs::report::{
    assemble_response, blank_report, GUIDANCE_MESSAGE, MISSING_REPORT, NO_NAMES_ERROR, USAGE_HINT,
};

#[test]
fn blank_report_holds_the_name_alone() {
    let r = blank_report("alpha");
    assert_eq!(r.name, "alpha");
    assert_eq!(r.latest_version, "");
    assert_eq!(r.dependency_line, "");
    assert_eq!(r.description, None);
    assert_eq!(r.repository, None);
    assert_eq!(r.crates_io_documentation, None);
    assert_eq!(r.docs_rs_root, None);
    assert_eq!(r.docs_rs_pages_count, 0);
    assert!(r.docs_anchor_items.is_empty());
    assert_eq!(r.docs_text_aggregate, None);
    assert!(r.docs_code_snippets.is_empty());
    assert_eq!(r.github_readme, None);
    assert!(r.github_examples.is_empty());
    assert!(r.errors.is_empty());
}

#[test]
fn answer_to_nothing_is_empty() {
    let response = assemble_response(None, Vec::new());
    assert_eq!(response.query_prompt, None);
    assert_eq!(response.tool_usage_hint, USAGE_HINT);
    assert!(response.results.is_empty());
    assert!(response.warnings.is_empty());
}

#[test]
fn answer_keeps_reports_in_the_order_given() {
    let mut b = blank_report("beta");
    b.errors.push("one".to_string());
    b.errors.push("two".to_string());
    let response = assemble_response(
        Some("context".to_string()),
        vec![Some(b), Some(blank_report("alpha")), None],
    );
    assert_eq!(response.query_prompt, Some("context".to_string()));
    let names: Vec<&str> = response.results.iter().map(|r| r.name.as_str()).collect();
    assert_eq!(names, vec!["beta", "alpha"]);
    assert_eq!(response.results[0].errors, vec!["one", "two"]);
    assert_eq!(response.warnings, vec!["beta: one", "beta: two", MISSING_REPORT]);
}

#[test]
fn fixed_texts_read_as_expected() {
    assert_eq!(NO_NAMES_ERROR, "No crate names provided.");
    assert!(GUIDANCE_MESSAGE.starts_with("You MUST ONLY use the API patterns"));
    assert!(USAGE_HINT.contains("`dependency_line`, `docs_rs_root`, `docs_code_snippets`, and `github_examples`"));
    assert_eq!(MISSING_REPORT, "A background task failed while enriching a crate");
}
