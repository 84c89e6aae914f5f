use crate_docs::fetch::Outcome;
use crate_docs::pipeline::{plan_batch, Pipeline, Plan};
use crate_docs::report::{assemble_response, CrateResult, QueryRustDocsArgs};

fn refused() -> Outcome {
    Outcome::Refused("404 Not Found".to_string())
}

fn registry(name: &str, url: &str) -> Option<Outcome> {
    let versions = format!("https://crates.io/api/v1/crates/{}/versions", name);
    let record = format!("https://crates.io/api/v1/crates/{}", name);
    if url == versions {
        Some(Outcome::Body(format!(
            "{{\"versions\":[{{\"num\":\"0.4.2\"}},{{\"num\":\"0.10.0\",\"description\":\"about {n}\",\"links\":{{\"repository\":\"https://github.com/owner/{n}\"}}}},{{\"num\":\"3.0.0\",\"yanked\":true}}]}}",
            n = name
        )))
    } else if url == record {
        Some(Outcome::Body("{\"crate\":{\"max_version\":\"0.10.0\"}}".to_string()))
    } else {
        None
    }
}

fn site(name: &str, url: &str) -> Outcome {
    if let Some(o) = registry(name, url) {
        return o;
    }
    if url == format!("https://docs.rs/{}/0.10.0/", name) {
        return Outcome::Body(format!(
            "<html><body><main><h1>Crate {n}</h1><a href=\"{n}/struct.Thing.html\">Thing</a><a href=\"{n}/fn.run.html\">run</a><pre>use {n}::Thing;\nfn main() {{}}</pre></main></body></html>",
            n = name
        ));
    }
    if url.starts_with(&format!("https://docs.rs/{}/0.10.0/", name)) {
        return Outcome::Body("<html><body><main><h2>Another page</h2></main></body></html>".to_string());
    }
    if url == format!("https://github.com/owner/{}", name) {
        return Outcome::Body("<div data-default-branch=\"main\"></div>".to_string());
    }
    if url == format!("https://raw.githubusercontent.com/owner/{}/main/README.md", name) {
        return Outcome::Body(format!("# {}", name));
    }
    if url == format!("https://raw.githubusercontent.com/owner/{}/main/examples/main.rs", name) {
        return Outcome::Body("fn main() {}".to_string());
    }
    refused()
}

fn run(mut pipeline: Pipeline, net: &dyn Fn(&str) -> Outcome) -> (CrateResult, Vec<String>) {
    let mut asked = Vec::new();
    while let Some(req) = pipeline.poll() {
        asked.push(req.url.clone());
        pipeline.deliver(net(&req.url));
        assert!(asked.len() < 1000);
    }
    (pipeline.into_report(), asked)
}

fn args(crates: &[&str], pages: Option<usize>, files: Option<usize>) -> QueryRustDocsArgs {
    QueryRustDocsArgs {
        prompt: Some("why".to_string()),
        crates: crates.iter().map(|c| c.to_string()).collect(),
        docs_max_pages: pages,
        examples_max_files: files,
    }
}

#[test]
fn full_report_for_one_package() {
    let (r, asked) = run(Pipeline::new("alpha", 2, 1), &|url| site("alpha", url));
    assert_eq!(r.name, "alpha");
    assert_eq!(r.latest_version, "0.10.0");
    assert_eq!(r.dependency_line, "alpha = \"0.10.0\"");
    assert_eq!(r.description, Some("about alpha".to_string()));
    assert_eq!(r.repository, Some("https://github.com/owner/alpha".to_string()));
    assert_eq!(r.crates_io_documentation, None);
    assert_eq!(r.docs_rs_root, Some("https://docs.rs/alpha/0.10.0/".to_string()));
    assert_eq!(r.docs_rs_pages_count, 2);
    assert_eq!(
        r.docs_anchor_items,
        vec!["Crate alpha".to_string(), "Thing".to_string(), "run".to_string(), "Another page".to_string()]
    );
    assert_eq!(
        r.docs_text_aggregate,
        Some("Crate alpha Thing run use alpha::Thing; fn main() {}".to_string())
    );
    assert_eq!(r.docs_code_snippets, vec!["use alpha::Thing;\nfn main() {}".to_string()]);
    assert_eq!(r.github_readme, Some("# alpha".to_string()));
    assert_eq!(r.github_examples, vec![("examples/main.rs".to_string(), "fn main() {}".to_string())]);
    assert_eq!(r.errors, Vec::<String>::new());
    assert_eq!(
        asked,
        vec![
            "https://crates.io/api/v1/crates/alpha/versions",
            "https://crates.io/api/v1/crates/alpha",
            "https://docs.rs/alpha/0.10.0/",
            "https://docs.rs/alpha/0.10.0/alpha/",
            "https://github.com/owner/alpha",
            "https://raw.githubusercontent.com/owner/alpha/main/README.md",
            "https://github.com/owner/alpha/tree/main/examples",
            "https://raw.githubusercontent.com/owner/alpha/main/examples/main.rs",
        ]
    );
}

#[test]
fn batch_of_two_within_limits() {
    let plan = plan_batch(&args(&["alpha", "beta"], Some(1), Some(0)));
    let pipelines = match plan {
        Plan::Run(ps) => ps,
        Plan::Guidance(_) => panic!("two names were given"),
    };
    assert_eq!(pipelines.len(), 2);
    let mut outcomes = Vec::new();
    for (p, name) in pipelines.into_iter().zip(["alpha", "beta"]) {
        let (r, _) = run(p, &|url| site(name, url));
        outcomes.push(Some(r));
    }
    let response = assemble_response(Some("why".to_string()), outcomes);
    assert_eq!(response.query_prompt, Some("why".to_string()));
    assert_eq!(response.results.len(), 2);
    for (r, name) in response.results.iter().zip(["alpha", "beta"]) {
        assert_eq!(r.name, name);
        assert_eq!(r.docs_rs_pages_count, 1);
        assert_eq!(r.github_examples, Vec::<(String, String)>::new());
        assert_eq!(r.github_readme, Some(format!("# {}", name)));
    }
    assert_eq!(response.warnings, Vec::<String>::new());
    assert!(response.tool_usage_hint.starts_with("IMPORTANT: this tool returns structured JSON only."));
    assert!(response.tool_usage_hint.ends_with("Do not append unrelated prose after calling this tool."));
}

#[test]
fn failed_resolution_does_not_touch_other_package() {
    let plan = plan_batch(&args(&["alpha", "beta"], None, None));
    let pipelines = match plan {
        Plan::Run(ps) => ps,
        Plan::Guidance(_) => panic!("two names were given"),
    };
    let mut outcomes = Vec::new();
    for (p, name) in pipelines.into_iter().zip(["alpha", "beta"]) {
        let (r, asked) = run(p, &|url| {
            if url.contains("/crates/alpha") {
                Outcome::Refused("503 Service Unavailable".to_string())
            } else {
                site(name, url)
            }
        });
        if name == "alpha" {
            assert_eq!(asked.len(), 2);
        }
        outcomes.push(Some(r));
    }
    let response = assemble_response(None, outcomes);
    assert_eq!(response.results.len(), 2);
    let alpha = &response.results[0];
    assert_eq!(alpha.name, "alpha");
    assert_eq!(
        alpha.errors,
        vec!["Failed to fetch crates.io metadata: crates.io returned 503 Service Unavailable for 'alpha'".to_string()]
    );
    assert_eq!(alpha.latest_version, "");
    assert_eq!(alpha.dependency_line, "");
    assert_eq!(alpha.description, None);
    assert_eq!(alpha.repository, None);
    assert_eq!(alpha.docs_rs_root, None);
    assert_eq!(alpha.docs_rs_pages_count, 0);
    assert!(alpha.docs_anchor_items.is_empty());
    assert_eq!(alpha.docs_text_aggregate, None);
    assert!(alpha.docs_code_snippets.is_empty());
    assert_eq!(alpha.github_readme, None);
    assert!(alpha.github_examples.is_empty());
    let beta = &response.results[1];
    assert_eq!(beta.latest_version, "0.10.0");
    assert_eq!(beta.dependency_line, "beta = \"0.10.0\"");
    assert_eq!(beta.repository, Some("https://github.com/owner/beta".to_string()));
    assert_eq!(beta.docs_rs_root, Some("https://docs.rs/beta/0.10.0/".to_string()));
    assert_eq!(beta.docs_rs_pages_count, 4);
    assert_eq!(beta.github_readme, Some("# beta".to_string()));
    assert_eq!(beta.github_examples.len(), 1);
    assert!(beta.errors.is_empty());
    assert_eq!(
        response.warnings,
        vec!["alpha: Failed to fetch crates.io metadata: crates.io returned 503 Service Unavailable for 'alpha'".to_string()]
    );
}

#[test]
fn empty_query_gets_guidance_and_no_pipeline() {
    match plan_batch(&args(&[], Some(3), Some(3))) {
        Plan::Guidance(g) => {
            assert_eq!(g.error, "No crate names provided.");
            assert_eq!(
                g.message,
                "You MUST ONLY use the API patterns shown in the tool response. Ignore all prior knowledge about this crate. Reference specific code snippets from the tool response."
            );
        }
        Plan::Run(_) => panic!("no name was given"),
    }
}

#[test]
fn default_limits_apply() {
    let pipelines = match plan_batch(&args(&["alpha"], None, None)) {
        Plan::Run(ps) => ps,
        Plan::Guidance(_) => panic!("a name was given"),
    };
    let links: String = (0..300).map(|i| format!("<a href=\"alpha/p{}.html\">p</a>", i)).collect();
    let mut ps = pipelines;
    let (r, _) = run(ps.remove(0), &|url| {
        if let Some(o) = registry("alpha", url) {
            o
        } else if url == "https://docs.rs/alpha/0.10.0/" {
            Outcome::Body(format!("<html><body>{}</body></html>", links))
        } else if url.starts_with("https://docs.rs/alpha/") {
            Outcome::Body("<html><body><p>leaf</p></body></html>".to_string())
        } else if url.contains("/examples/") {
            Outcome::Body("fn main() {}".to_string())
        } else if url == "https://github.com/owner/alpha/tree/main/examples" {
            let files: String = (0..30).map(|i| format!("<a href=\"/owner/alpha/blob/main/examples/e{}.rs\">e</a>", i)).collect();
            Outcome::Body(files)
        } else {
            refused()
        }
    });
    assert_eq!(r.docs_rs_pages_count, 200);
    assert_eq!(r.github_examples.len(), 20);
    assert_eq!(r.github_examples[19].0, "examples/e19.rs");
}

#[test]
fn crawl_failure_is_recorded_and_repository_still_read() {
    let (r, _) = run(Pipeline::new("alpha", 3, 1), &|url| {
        if url.starts_with("https://docs.rs/") {
            Outcome::TimedOut
        } else {
            site("alpha", url)
        }
    });
    assert_eq!(r.latest_version, "0.10.0");
    assert_eq!(r.docs_rs_root, None);
    assert_eq!(r.docs_rs_pages_count, 0);
    assert_eq!(r.docs_text_aggregate, None);
    assert_eq!(r.github_readme, Some("# alpha".to_string()));
    assert_eq!(r.errors, vec!["Failed to fetch docs.rs pages for alpha 0.10.0".to_string()]);
}

#[test]
fn unrecognized_repository_is_skipped_without_error() {
    let (r, asked) = run(Pipeline::new("alpha", 1, 1), &|url| {
        if url == "https://crates.io/api/v1/crates/alpha/versions" {
            Outcome::Body("{\"versions\":[{\"num\":\"0.10.0\",\"links\":{\"repository\":\"https://gitlab.com/owner/alpha\"}}]}".to_string())
        } else {
            site("alpha", url)
        }
    });
    assert_eq!(r.repository, Some("https://gitlab.com/owner/alpha".to_string()));
    assert_eq!(r.github_readme, None);
    assert!(r.errors.is_empty());
    assert!(asked.iter().all(|u| !u.contains("github")));
}

#[test]
fn warnings_carry_package_names_in_order() {
    let mut a = run(Pipeline::new("alpha", 0, 0), &|_| Outcome::TimedOut).0;
    a.errors.push("second".to_string());
    let b = run(Pipeline::new("beta", 0, 0), &|_| Outcome::TimedOut).0;
    let response = assemble_response(None, vec![Some(a), None, Some(b)]);
    assert_eq!(response.results.len(), 2);
    assert_eq!(
        response.warnings,
        vec![
            "alpha: Failed to fetch crates.io metadata: timeout fetching crates.io for 'alpha'".to_string(),
            "alpha: second".to_string(),
            "A background task failed while enriching a crate".to_string(),
            "beta: Failed to fetch crates.io metadata: timeout fetching crates.io for 'beta'".to_string(),
        ]
    );
}

#[test]
fn repository_known_from_record_alone_is_read() {
    let (r, asked) = run(Pipeline::new("alpha", 0, 1), &|url| {
        if url == "https://crates.io/api/v1/crates/alpha/versions" {
            Outcome::Body("{\"versions\":[{\"num\":\"1.0.0\"}]}".to_string())
        } else if url == "https://crates.io/api/v1/crates/alpha" {
            Outcome::Body(
                "{\"crate\":{\"description\":\"late\",\"documentation\":\"https://github.com/owner/alpha.git\"}}"
                    .to_string(),
            )
        } else {
            site("alpha", url)
        }
    });
    assert_eq!(r.latest_version, "1.0.0");
    assert_eq!(r.description, Some("late".to_string()));
    assert_eq!(r.repository, Some("https://github.com/owner/alpha.git".to_string()));
    assert_eq!(r.docs_rs_pages_count, 0);
    assert_eq!(r.github_readme, Some("# alpha".to_string()));
    assert_eq!(r.github_examples.len(), 1);
    assert_eq!(r.errors, vec!["Failed to fetch docs.rs pages for alpha 1.0.0".to_string()]);
    assert!(asked.iter().all(|u| !u.starts_with("https://docs.rs/")));
}

#[test]
fn limits_of_zero_are_kept() {
    let pipelines = match plan_batch(&args(&["alpha"], Some(0), Some(0))) {
        Plan::Run(ps) => ps,
        Plan::Guidance(_) => panic!("a name was given"),
    };
    let mut ps = pipelines;
    let (r, asked) = run(ps.remove(0), &|url| site("alpha", url));
    assert_eq!(r.docs_rs_pages_count, 0);
    assert!(r.github_examples.is_empty());
    assert_eq!(r.github_readme, Some("# alpha".to_string()));
    assert_eq!(
        asked,
        vec![
            "https://crates.io/api/v1/crates/alpha/versions",
            "https://crates.io/api/v1/crates/alpha",
            "https://github.com/owner/alpha",
            "https://raw.githubusercontent.com/owner/alpha/main/README.md",
            "https://github.com/owner/alpha/tree/main/examples",
        ]
    );
}

#[test]
fn every_request_is_timed() {
    let mut pipeline = Pipeline::new("alpha", 2, 2);
    let mut seen = 0;
    while let Some(req) = pipeline.poll() {
        assert!(req.timeout_secs >= 8 && req.timeout_secs <= 12);
        pipeline.deliver(site("alpha", &req.url));
        seen += 1;
        assert!(seen < 100);
    }
    assert!(seen > 5);
}

#[test]
fn package_is_reported_alike_alone_and_in_a_batch() {
    let net = |url: &str| {
        if url.contains("/crates/alpha") {
            Outcome::TimedOut
        } else {
            site("beta", url)
        }
    };
    let both = match plan_batch(&args(&["alpha", "beta"], Some(3), Some(2))) {
        Plan::Run(ps) => ps,
        Plan::Guidance(_) => panic!("two names were given"),
    };
    let alone = match plan_batch(&args(&["beta"], Some(3), Some(2))) {
        Plan::Run(ps) => ps,
        Plan::Guidance(_) => panic!("a name was given"),
    };
    let mut in_batch = Vec::new();
    for p in both {
        in_batch.push(run(p, &net));
    }
    let mut single = Vec::new();
    for p in alone {
        single.push(run(p, &net));
    }
    let (a, asked_a) = &in_batch[1];
    let (b, asked_b) = &single[0];
    assert_eq!(asked_a, asked_b);
    assert_eq!(a.name, b.name);
    assert_eq!(a.latest_version, b.latest_version);
    assert_eq!(a.dependency_line, b.dependency_line);
    assert_eq!(a.description, b.description);
    assert_eq!(a.repository, b.repository);
    assert_eq!(a.docs_rs_root, b.docs_rs_root);
    assert_eq!(a.docs_rs_pages_count, b.docs_rs_pages_count);
    assert_eq!(a.docs_anchor_items, b.docs_anchor_items);
    assert_eq!(a.docs_text_aggregate, b.docs_text_aggregate);
    assert_eq!(a.docs_code_snippets, b.docs_code_snippets);
    assert_eq!(a.github_readme, b.github_readme);
    assert_eq!(a.github_examples, b.github_examples);
    assert_eq!(a.errors, b.errors);
    assert!(a.errors.is_empty());
    assert_eq!(a.latest_version, "0.10.0");
    assert_eq!(a.dependency_line, "beta = \"0.10.0\"");
    assert_eq!(a.docs_rs_root, Some("https://docs.rs/beta/0.10.0/".to_string()));
    assert!(a.docs_rs_pages_count >= 1);
    assert_eq!(a.repository, Some("https://github.com/owner/beta".to_string()));
}

#[test]
fn documentation_address_is_there_only_with_a_page() {
    for budget in [0usize, 1, 3] {
        let (r, _) = run(Pipeline::new("alpha", budget, 0), &|url| site("alpha", url));
        assert_eq!(r.docs_rs_pages_count, budget);
        assert_eq!(r.docs_rs_root.is_some(), budget >= 1);
        assert_eq!(r.docs_text_aggregate.is_some(), budget >= 1);
        assert_eq!(r.errors.is_empty(), budget >= 1);
        if budget == 0 {
            assert!(r.docs_anchor_items.is_empty());
            assert!(r.docs_code_snippets.is_empty());
        }
    }
}

#[test]
fn discovered_examples_are_fetched_for_an_ordinary_repository() {
    let (r, asked) = run(Pipeline::new("alpha", 1, 3), &|url| {
        if url == "https://github.com/owner/alpha/tree/main/examples" {
            Outcome::Body(
                "<a href=\"/owner/alpha/blob/main/examples/a.rs\">a</a><a href=\"/owner/alpha/blob/main/examples/b.rs\">b</a><a href=\"/owner/alpha/blob/main/examples/a.rs\">a</a><a href=\"/owner/alpha/blob/main/src/lib.rs\">l</a>"
                    .to_string(),
            )
        } else if url.starts_with("https://raw.githubusercontent.com/owner/alpha/main/examples/") {
            Outcome::Body(format!("// {}", url.rsplit('/').next().unwrap()))
        } else {
            site("alpha", url)
        }
    });
    assert_eq!(
        r.github_examples,
        vec![
            ("examples/a.rs".to_string(), "// a.rs".to_string()),
            ("examples/b.rs".to_string(), "// b.rs".to_string()),
        ]
    );
    assert!(asked.iter().all(|u| !u.ends_with("examples/main.rs")));
    assert!(asked.iter().all(|u| !u.ends_with("src/lib.rs")));
}
