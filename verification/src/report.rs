//! What a query asks and what it is answered: the report on one package, and
//! the answer to a batch of package names.

use vstd::prelude::*;

use crate::github::pairs;
use crate::text::{optional_text, texts};

verus! {

/// What a query asks.
pub struct QueryRustDocsArgs {
    /// A free text that is handed back with the answer.
    pub prompt: Option<String>,
    /// The names of the packages to report on.
    pub crates: Vec<String>,
    /// How many documentation pages may be fetched for each package.
    pub docs_max_pages: Option<usize>,
    /// How many example files may be fetched for each package.
    pub examples_max_files: Option<usize>,
}

/// The report on one package.
pub struct CrateResult {
    pub name: String,
    pub latest_version: String,
    pub dependency_line: String,
    pub description: Option<String>,
    pub repository: Option<String>,
    pub crates_io_documentation: Option<String>,
    pub docs_rs_root: Option<String>,
    pub docs_rs_pages_count: usize,
    pub docs_anchor_items: Vec<String>,
    pub docs_text_aggregate: Option<String>,
    pub docs_code_snippets: Vec<String>,
    pub github_readme: Option<String>,
    pub github_examples: Vec<(String, String)>,
    pub errors: Vec<String>,
}

/// A report as a value of specifications.
pub struct CrateResultView {
    pub name: Seq<char>,
    pub latest_version: Seq<char>,
    pub dependency_line: Seq<char>,
    pub description: Option<Seq<char>>,
    pub repository: Option<Seq<char>>,
    pub crates_io_documentation: Option<Seq<char>>,
    pub docs_rs_root: Option<Seq<char>>,
    pub docs_rs_pages_count: nat,
    pub docs_anchor_items: Seq<Seq<char>>,
    pub docs_text_aggregate: Option<Seq<char>>,
    pub docs_code_snippets: Seq<Seq<char>>,
    pub github_readme: Option<Seq<char>>,
    pub github_examples: Seq<(Seq<char>, Seq<char>)>,
    pub errors: Seq<Seq<char>>,
}

impl View for CrateResult {
    type V = CrateResultView;

    open spec fn view(&self) -> CrateResultView {
        CrateResultView {
            name: self.name@,
            latest_version: self.latest_version@,
            dependency_line: self.dependency_line@,
            description: optional_text(self.description),
            repository: optional_text(self.repository),
            crates_io_documentation: optional_text(self.crates_io_documentation),
            docs_rs_root: optional_text(self.docs_rs_root),
            docs_rs_pages_count: self.docs_rs_pages_count as nat,
            docs_anchor_items: texts(self.docs_anchor_items@),
            docs_text_aggregate: optional_text(self.docs_text_aggregate),
            docs_code_snippets: texts(self.docs_code_snippets@),
            github_readme: optional_text(self.github_readme),
            github_examples: pairs(self.github_examples@),
            errors: texts(self.errors@),
        }
    }
}

/// The answer to a query.
pub struct QueryRustDocsResponse {
    pub query_prompt: Option<String>,
    pub tool_usage_hint: String,
    pub results: Vec<CrateResult>,
    pub warnings: Vec<String>,
}

/// What is answered to a query that names no package.
pub struct Guidance {
    pub error: String,
    pub message: String,
}

/// The error that the guidance states.
pub const NO_NAMES_ERROR: &'static str = "No crate names provided.";

/// The advice that the guidance gives.
pub const GUIDANCE_MESSAGE: &'static str =
    "You MUST ONLY use the API patterns shown in the tool response. Ignore all prior knowledge about this crate. Reference specific code snippets from the tool response.";

/// The report that names a package and says nothing else.
pub open spec fn empty_report(name: Seq<char>) -> CrateResultView {
    CrateResultView {
        name,
        latest_version: Seq::empty(),
        dependency_line: Seq::empty(),
        description: None,
        repository: None,
        crates_io_documentation: None,
        docs_rs_root: None,
        docs_rs_pages_count: 0,
        docs_anchor_items: Seq::empty(),
        docs_text_aggregate: None,
        docs_code_snippets: Seq::empty(),
        github_readme: None,
        github_examples: Seq::empty(),
        errors: Seq::empty(),
    }
}

/// The report that names a package and says nothing else.
pub fn blank_report(name: &str) -> (r: CrateResult)
    ensures
        r@ == empty_report(name@),
{
    let r = CrateResult {
        name: String::from_str(name),
        latest_version: String::new(),
        dependency_line: String::new(),
        description: None,
        repository: None,
        crates_io_documentation: None,
        docs_rs_root: None,
        docs_rs_pages_count: 0,
        docs_anchor_items: Vec::new(),
        docs_text_aggregate: None,
        docs_code_snippets: Vec::new(),
        github_readme: None,
        github_examples: Vec::new(),
        errors: Vec::new(),
    };
    proof {
        let e = empty_report(name@);
        assert(r@.docs_anchor_items =~= e.docs_anchor_items);
        assert(r@.docs_code_snippets =~= e.docs_code_snippets);
        assert(r@.github_examples =~= e.github_examples);
        assert(r@.errors =~= e.errors);
    }
    r
}

/// The views of a list of reports.
pub open spec fn reports(v: Seq<CrateResult>) -> Seq<CrateResultView> {
    Seq::new(v.len(), |i: int| v[i]@)
}

/// The views of a list of reports of which some are missing.
pub open spec fn optional_reports(v: Seq<Option<CrateResult>>) -> Seq<Option<CrateResultView>> {
    Seq::new(
        v.len(),
        |i: int|
            match v[i] {
                Some(r) => Some(r@),
                None => None,
            },
    )
}

/// The errors of a report as warnings: each with the package's name and a
/// colon before it.
pub open spec fn named_errors(name: Seq<char>, errors: Seq<Seq<char>>) -> Seq<Seq<char>> {
    Seq::new(errors.len(), |i: int| name + ": "@ + errors[i])
}

/// The reports that came, in order.
pub open spec fn gathered_reports(outcomes: Seq<Option<CrateResultView>>) -> Seq<CrateResultView>
    decreases outcomes.len(),
{
    if outcomes.len() == 0 {
        Seq::empty()
    } else {
        let before = gathered_reports(outcomes.drop_last());
        match outcomes.last() {
            Some(r) => before.push(r),
            None => before,
        }
    }
}

/// The warnings of a batch, in order: for each report its errors under the
/// package's name, and one fixed warning for each report that is missing.
pub open spec fn gathered_warnings(outcomes: Seq<Option<CrateResultView>>) -> Seq<Seq<char>>
    decreases outcomes.len(),
{
    if outcomes.len() == 0 {
        Seq::empty()
    } else {
        let before = gathered_warnings(outcomes.drop_last());
        match outcomes.last() {
            Some(r) => before + named_errors(r.name, r.errors),
            None => before.push(MISSING_REPORT@),
        }
    }
}

/// The hint that every answer carries.
pub const USAGE_HINT: &'static str =
    "IMPORTANT: this tool returns structured JSON only. The calling model must stop generation, parse this JSON, and then generate code using the returned `dependency_line`, `docs_rs_root`, `docs_code_snippets`, and `github_examples`. Do not append unrelated prose after calling this tool.";

/// The warning that stands for a report that is missing.
pub const MISSING_REPORT: &'static str = "A background task failed while enriching a crate";

/// Whether a report came and holds no error.
pub open spec fn is_clean(o: Option<CrateResultView>) -> bool {
    match o {
        Some(r) => r.errors.len() == 0,
        None => false,
    }
}

/// Every report of a batch is handed on, whatever the others hold: where
/// each package's report came, the answer holds them all, in order; and no
/// warning is given where no report holds an error.
pub proof fn law_nothing_lost(outcomes: Seq<Option<CrateResultView>>)
    ensures
        gathered_reports(outcomes).len() <= outcomes.len(),
        (forall|i: int| 0 <= i < outcomes.len() ==> (#[trigger] outcomes[i]) is Some) ==> {
            &&& gathered_reports(outcomes).len() == outcomes.len()
            &&& forall|i: int|
                0 <= i < outcomes.len() ==> outcomes[i] == Some(
                    #[trigger] gathered_reports(outcomes)[i],
                )
        },
        (forall|i: int| 0 <= i < outcomes.len() ==> is_clean(#[trigger] outcomes[i]))
            ==> gathered_warnings(outcomes).len() == 0,
    decreases outcomes.len(),
{
    if outcomes.len() > 0 {
        law_nothing_lost(outcomes.drop_last());
        let shorter = outcomes.drop_last();
        assert forall|i: int| 0 <= i < shorter.len() implies shorter[i] == outcomes[i] by {}
        if forall|i: int| 0 <= i < outcomes.len() ==> (#[trigger] outcomes[i]) is Some {
            assert forall|i: int| 0 <= i < shorter.len() implies (#[trigger] shorter[i]) is Some by {
                assert(outcomes[i] is Some);
            }
            assert(outcomes[outcomes.len() - 1] is Some);
        }
        if forall|i: int| 0 <= i < outcomes.len() ==> is_clean(#[trigger] outcomes[i]) {
            assert forall|i: int| 0 <= i < shorter.len() implies is_clean(#[trigger] shorter[i]) by {
                assert(is_clean(outcomes[i]));
            }
            assert(is_clean(outcomes[outcomes.len() - 1]));
        }
    }
}

/// The answer to a batch: the reports that came, the warnings that they
/// give, the prompt handed back and the usage hint.
pub fn assemble_response(prompt: Option<String>, outcomes: Vec<Option<CrateResult>>) -> (r:
    QueryRustDocsResponse)
    ensures
        optional_text(r.query_prompt) == optional_text(prompt),
        r.tool_usage_hint@ == USAGE_HINT@,
        reports(r.results@) == gathered_reports(optional_reports(outcomes@)),
        texts(r.warnings@) == gathered_warnings(optional_reports(outcomes@)),
{
    let ghost all = optional_reports(outcomes@);
    let n = outcomes.len();
    let mut outcomes = outcomes;
    let mut results: Vec<CrateResult> = Vec::new();
    let mut warnings: Vec<String> = Vec::new();
    let mut i: usize = 0;
    assert(all.take(0) =~= Seq::<Option<CrateResultView>>::empty());
    assert(reports(results@) =~= Seq::<CrateResultView>::empty());
    assert(texts(warnings@) =~= Seq::<Seq<char>>::empty());
    while i < n
        invariant
            i <= n,
            n == outcomes.len(),
            all.len() == n,
            forall|j: int| i <= j < n ==> optional_reports(outcomes@)[j] == all[j],
            reports(results@) == gathered_reports(all.take(i as int)),
            texts(warnings@) == gathered_warnings(all.take(i as int)),
        decreases n - i,
    {
        assert(all.take(i + 1).drop_last() =~= all.take(i as int));
        assert(all.take(i + 1).last() == all[i as int]);
        assert(optional_reports(outcomes@)[i as int] == all[i as int]);
        let ghost before = outcomes@;
        let mut slot: Option<CrateResult> = None;
        std::mem::swap(&mut outcomes[i], &mut slot);
        assert(forall|j: int| i < j < n ==> optional_reports(outcomes@)[j] == all[j]) by {
            assert forall|j: int| i < j < n implies optional_reports(outcomes@)[j] == all[j] by {
                assert(outcomes@[j] == before[j]);
                assert(optional_reports(before)[j] == all[j]);
            }
        }
        match slot {
            Some(report) => {
                let ghost old_warnings = texts(warnings@);
                let mut k: usize = 0;
                while k < report.errors.len()
                    invariant
                        k <= report.errors.len(),
                        texts(warnings@) =~= old_warnings + named_errors(
                            report.name@,
                            texts(report.errors@),
                        ).take(k as int),
                    decreases report.errors.len() - k,
                {
                    let ghost named = named_errors(report.name@, texts(report.errors@));
                    let ghost so_far = texts(warnings@);
                    let mut w = report.name.clone();
                    w.append(": ");
                    w.append(report.errors[k].as_str());
                    assert(w@ == named[k as int]);
                    warnings.push(w);
                    assert(texts(warnings@) =~= so_far.push(w@));
                    assert(named.take(k + 1) =~= named.take(k as int).push(named[k as int]));
                    k += 1;
                }
                assert(named_errors(report.name@, texts(report.errors@)).take(
                    report.errors.len() as int,
                ) =~= named_errors(report.name@, texts(report.errors@)));
                let ghost old_results = reports(results@);
                results.push(report);
                assert(reports(results@) =~= old_results.push(report@));
            },
            None => {
                let ghost old_warnings = texts(warnings@);
                let w = String::from_str(MISSING_REPORT);
                warnings.push(w);
                assert(texts(warnings@) =~= old_warnings.push(w@));
            },
        }
        i += 1;
    }
    assert(all.take(n as int) =~= all);
    QueryRustDocsResponse {
        query_prompt: prompt,
        tool_usage_hint: String::from_str(USAGE_HINT),
        results,
        warnings,
    }
}

} // verus!
