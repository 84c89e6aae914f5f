//! The work on one package, from its name to its report: the resolution of
//! its version, the crawl of its documentation, the look at its repository.
//! The pipeline names one request at a time and is handed its outcome.

use vstd::prelude::*;

use crate::docs::{
    budget_left, effort_left, law_crawl_starts_well_formed, law_outcome_keeps_crawl_in_bounds,
    law_round_brings_crawl_nearer_end, law_visited_paths_are_not_fetched, Crawl, CrawlView,
};
use crate::extract::{
    anchor_items_in, code_blocks_in, extract_anchor_items_from_html,
    extract_code_blocks_from_html, extract_text_aggregate, law_anchor_items_distinct,
    law_snippets_have_marker, text_aggregate, ANCHOR_ELEMENTS, CODE_ELEMENTS,
};
use crate::fetch::{body_of, is_success, request_view, Outcome, Request, RequestView};
use crate::html::selected_texts;
use crate::github::{
    files_left, law_examples_within_budget, law_outcome_brings_repository_nearer_end,
    owner_and_repo, parse_github_owner_repo, phase_rank, Repo, RepoView,
};
use crate::registry::{
    answers_left, law_outcome_brings_resolution_nearer_end, ResolvedPackage, ResolvedView,
    Resolver, ResolverView,
};
use crate::report::{
    blank_report, empty_report, CrateResult, CrateResultView, Guidance, QueryRustDocsArgs,
    GUIDANCE_MESSAGE, NO_NAMES_ERROR,
};
use crate::text::{join, join_texts, texts};

verus! {

/// How many anchor items a report holds at most.
pub const ANCHOR_LIMIT: usize = 200;

/// How many code snippets a report holds at most.
pub const SNIPPET_LIMIT: usize = 80;

/// How many documentation pages are fetched where the query sets no limit.
pub const DEFAULT_MAX_PAGES: usize = 200;

/// How many example files are fetched where the query sets no limit.
pub const DEFAULT_MAX_FILES: usize = 20;

/// The line that declares the dependency on a version of a package.
pub open spec fn dependency_line(name: Seq<char>, version: Seq<char>) -> Seq<char> {
    name + " = \""@ + version + "\""@
}

/// The address of the documentation of a version of a package.
pub open spec fn docs_root(name: Seq<char>, version: Seq<char>) -> Seq<char> {
    "https://docs.rs/"@ + name + "/"@ + version + "/"@
}

/// The report on a package whose version could not be resolved: its name
/// and the cause.
pub open spec fn failure_report(name: Seq<char>, cause: Seq<char>) -> CrateResultView {
    CrateResultView {
        errors: seq!["Failed to fetch crates.io metadata: "@ + cause],
        ..empty_report(name)
    }
}

/// The report on a package once its version is resolved.
pub open spec fn resolved_report(name: Seq<char>, p: ResolvedView) -> CrateResultView {
    CrateResultView {
        latest_version: p.version,
        dependency_line: dependency_line(name, p.version),
        description: p.description,
        repository: p.repository,
        ..empty_report(name)
    }
}

/// The report with what the crawl gave: the anchor items, code snippets and
/// main text of the stored pages, joined by line feeds; an error where no
/// page was stored.
pub open spec fn with_docs(r: CrateResultView, pages: Seq<Seq<char>>) -> CrateResultView {
    if pages.len() == 0 {
        CrateResultView {
            errors: r.errors.push(
                "Failed to fetch docs.rs pages for "@ + r.name + " "@ + r.latest_version,
            ),
            ..r
        }
    } else {
        let html = join(pages, "\n"@);
        CrateResultView {
            docs_rs_root: Some(docs_root(r.name, r.latest_version)),
            docs_rs_pages_count: pages.len(),
            docs_anchor_items: anchor_items_in(html, ANCHOR_LIMIT as nat),
            docs_text_aggregate: Some(text_aggregate(html)),
            docs_code_snippets: code_blocks_in(html, SNIPPET_LIMIT as nat),
            ..r
        }
    }
}

/// The report with what the repository gave.
pub open spec fn with_repo(r: CrateResultView, g: RepoView) -> CrateResultView {
    CrateResultView {
        github_readme: g.readme,
        github_examples: g.examples,
        errors: r.errors + g.errors,
        ..r
    }
}

/// The owner and name of the repository that a report's address names.
pub open spec fn repository_of(address: Option<Seq<char>>) -> Option<(Seq<char>, Seq<char>)> {
    match address {
        Some(a) => owner_and_repo(a),
        None => None,
    }
}

/// Whether a report holds what a resolved version gives it: the line that
/// declares the dependency on the version that it names.
pub open spec fn is_resolved(r: CrateResultView) -> bool {
    r.dependency_line == dependency_line(r.name, r.latest_version)
}

/// Whether a report holds nothing of the documentation.
pub open spec fn holds_no_docs(r: CrateResultView) -> bool {
    &&& r.docs_rs_root is None
    &&& r.docs_rs_pages_count == 0
    &&& r.docs_anchor_items.len() == 0
    &&& r.docs_text_aggregate is None
    &&& r.docs_code_snippets.len() == 0
}

/// Whether a report holds nothing of the repository.
pub open spec fn holds_no_repository(r: CrateResultView) -> bool {
    r.github_readme is None && r.github_examples.len() == 0
}

/// Whether a report is complete: the version was resolved, a page of the
/// documentation was stored, and the README was fetched unless the report
/// names no repository that is recognised.
pub open spec fn is_complete(r: CrateResultView) -> bool {
    &&& is_resolved(r)
    &&& r.docs_rs_pages_count >= 1
    &&& r.github_readme is Some || repository_of(r.repository) is None
}

/// What holds of the documentation fields of a report once the crawl is
/// over: the address of the documentation and the main text are there
/// exactly where a page was stored, the address is that of the version
/// reported, without a page there are no anchor items and no snippets, and
/// there are never more of them than their limits allow.
pub open spec fn docs_are_settled(r: CrateResultView) -> bool {
    &&& r.docs_rs_root is Some <==> r.docs_rs_pages_count >= 1
    &&& r.docs_rs_root matches Some(root) ==> root == docs_root(r.name, r.latest_version)
    &&& r.docs_text_aggregate is Some <==> r.docs_rs_pages_count >= 1
    &&& r.docs_rs_pages_count == 0 ==> r.docs_anchor_items.len() == 0
        && r.docs_code_snippets.len() == 0
    &&& r.docs_anchor_items.len() <= ANCHOR_LIMIT
    &&& r.docs_code_snippets.len() <= SNIPPET_LIMIT
}

/// The stage that a pipeline is in, with the state of the work of that
/// stage.
pub enum StageView {
    Resolving(ResolverView),
    Crawling(CrawlView),
    Enriching(RepoView),
    Finished,
}

/// The state of a pipeline.
pub struct PipelineView {
    pub crate_name: Seq<char>,
    pub docs_max_pages: nat,
    pub examples_max_files: nat,
    pub stage: StageView,
    /// The report as far as it is written.
    pub report: CrateResultView,
}

impl PipelineView {
    /// A pipeline starts with the resolution of the version, and with a
    /// report that holds the name alone.
    pub open spec fn initial(
        crate_name: Seq<char>,
        docs_max_pages: nat,
        examples_max_files: nat,
    ) -> PipelineView {
        PipelineView {
            crate_name,
            docs_max_pages,
            examples_max_files,
            stage: StageView::Resolving(ResolverView::initial(crate_name)),
            report: empty_report(crate_name),
        }
    }

    /// What holds of every state that a pipeline reaches. Until the crawl
    /// is over the report holds nothing of the documentation; from then on
    /// it holds the documentation's address exactly where a page was
    /// stored. Until the work on the repository is over the report holds
    /// nothing of the repository.
    pub open spec fn wf(self) -> bool {
        &&& self.report.name == self.crate_name
        &&& self.report.crates_io_documentation is None
        &&& match self.stage {
            StageView::Resolving(r) => {
                &&& r.wf()
                &&& r.crate_name == self.crate_name
                &&& self.report == empty_report(self.crate_name)
            },
            StageView::Crawling(c) => {
                &&& c.wf()
                &&& c.crate_name == self.crate_name
                &&& c.version == self.report.latest_version
                &&& c.max_pages == self.docs_max_pages
                &&& is_resolved(self.report)
                &&& holds_no_docs(self.report)
                &&& holds_no_repository(self.report)
                &&& self.report.errors.len() == 0
            },
            StageView::Enriching(g) => {
                &&& g.wf()
                &&& g.max_files == self.examples_max_files
                &&& repository_of(self.report.repository) == Some((g.owner, g.repo))
                &&& is_resolved(self.report)
                &&& docs_are_settled(self.report)
                &&& self.report.docs_rs_pages_count <= self.docs_max_pages
                &&& holds_no_repository(self.report)
                &&& self.report.errors.len() <= 1
                &&& self.report.errors.len() == 0 <==> self.report.docs_rs_pages_count >= 1
            },
            StageView::Finished => {
                &&& docs_are_settled(self.report)
                &&& self.report.docs_rs_pages_count <= self.docs_max_pages
                &&& self.report.github_examples.len() <= self.examples_max_files
                &&& self.report.errors.len() == 0 <==> is_complete(self.report)
            },
        }
    }

    /// The request that is due; none when the pipeline has finished, or
    /// when it has to be asked for its next request first.
    pub open spec fn due(self) -> Option<RequestView> {
        match self.stage {
            StageView::Resolving(r) => r.due(),
            StageView::Crawling(c) => c.due(),
            StageView::Enriching(g) => g.due(),
            StageView::Finished => None,
        }
    }

    /// The state after the outcome of the request that was due: the work of
    /// the stage takes it.
    pub open spec fn delivered(self, o: Outcome) -> PipelineView {
        match self.stage {
            StageView::Resolving(r) => PipelineView {
                stage: StageView::Resolving(r.delivered(o)),
                ..self
            },
            StageView::Crawling(c) => PipelineView {
                stage: StageView::Crawling(c.delivered(body_of(o))),
                ..self
            },
            StageView::Enriching(g) => PipelineView {
                stage: StageView::Enriching(g.delivered(body_of(o), is_success(o))),
                ..self
            },
            StageView::Finished => self,
        }
    }

    /// The state in which the crawl `c` goes on, or, where it is over, the
    /// state after it: the report holds what the crawl gave, and the work on
    /// the repository begins if the report names one.
    pub open spec fn crawl_on(self, c: CrawlView) -> PipelineView {
        let c = c.polled();
        if c.fetching is Some {
            PipelineView { stage: StageView::Crawling(c), ..self }
        } else {
            let report = with_docs(self.report, c.pages);
            match repository_of(report.repository) {
                Some((owner, repo)) => PipelineView {
                    stage: StageView::Enriching(
                        RepoView::initial(owner, repo, self.examples_max_files),
                    ),
                    report,
                    ..self
                },
                None => PipelineView { stage: StageView::Finished, report, ..self },
            }
        }
    }

    /// The state after the pipeline was asked for its next request. A stage
    /// whose work is over gives way to the next: a failed resolution ends
    /// the pipeline with a report of the name and the cause; a resolved
    /// version starts the crawl; the end of the crawl starts the work on the
    /// repository, if there is one; the end of that work ends the pipeline.
    pub open spec fn polled(self) -> PipelineView {
        match self.stage {
            StageView::Resolving(r) => match r.result {
                None => self,
                Some(Err(cause)) => PipelineView {
                    stage: StageView::Finished,
                    report: failure_report(self.crate_name, cause),
                    ..self
                },
                Some(Ok(p)) => PipelineView {
                    report: resolved_report(self.crate_name, p),
                    ..self
                }.crawl_on(CrawlView::initial(self.crate_name, p.version, self.docs_max_pages)),
            },
            StageView::Crawling(c) => self.crawl_on(c),
            StageView::Enriching(g) => if g.due() is Some {
                self
            } else {
                PipelineView {
                    stage: StageView::Finished,
                    report: with_repo(self.report, g),
                    ..self
                }
            },
            StageView::Finished => self,
        }
    }
}

/// A pipeline starts in a well-formed state.
pub proof fn law_pipeline_starts_well_formed(
    crate_name: Seq<char>,
    docs_max_pages: nat,
    examples_max_files: nat,
)
    ensures
        PipelineView::initial(crate_name, docs_max_pages, examples_max_files).wf(),
{
}

proof fn lemma_docs_settle(r: CrateResultView, pages: Seq<Seq<char>>)
    requires
        holds_no_docs(r),
    ensures
        docs_are_settled(with_docs(r, pages)),
        with_docs(r, pages).docs_rs_pages_count == pages.len(),
{
    if pages.len() > 0 {
        let html = join(pages, "\n"@);
        match selected_texts(html, ANCHOR_ELEMENTS@) {
            Some(elements) => {
                law_anchor_items_distinct(elements, ANCHOR_LIMIT as nat);
            },
            None => {},
        }
        match selected_texts(html, CODE_ELEMENTS@) {
            Some(elements) => {
                law_snippets_have_marker(elements, SNIPPET_LIMIT as nat);
            },
            None => {},
        }
    }
}

/// A report never holds more pages or more example files than the query
/// allows: asking a pipeline for its next request, and handing it an
/// outcome, keep its state well formed, and the report of a well-formed
/// finished pipeline is within both limits.
pub proof fn law_report_within_limits(s: PipelineView, o: Outcome)
    requires
        s.wf(),
    ensures
        s.polled().wf(),
        s.delivered(o).wf(),
        s.polled().stage is Finished ==> s.polled().report.docs_rs_pages_count <= s.docs_max_pages
            && s.polled().report.github_examples.len() <= s.examples_max_files,
{
    match s.stage {
        StageView::Resolving(r) => {},
        StageView::Crawling(c) => {
            lemma_docs_settle(s.report, c.polled().pages);
        },
        _ => {},
    }
    match s.stage {
        StageView::Resolving(r) => {
            match r.result {
                Some(Ok(p)) => {
                    let c = CrawlView::initial(s.crate_name, p.version, s.docs_max_pages);
                    law_crawl_starts_well_formed(s.crate_name, p.version, s.docs_max_pages);
                    law_visited_paths_are_not_fetched(c);
                    lemma_docs_settle(resolved_report(s.crate_name, p), c.polled().pages);
                },
                _ => {},
            }
        },
        StageView::Crawling(c) => {
            law_visited_paths_are_not_fetched(c);
            law_outcome_keeps_crawl_in_bounds(c, body_of(o));
        },
        StageView::Enriching(g) => {
            law_examples_within_budget(g, body_of(o), is_success(o));
        },
        StageView::Finished => {},
    }
}

/// A report names the address of the documentation only if a page was
/// stored: while a pipeline resolves or crawls, its report holds nothing of
/// the documentation, and afterwards the address is there exactly where the
/// page count is at least one.
pub proof fn law_docs_root_only_with_pages(s: PipelineView)
    requires
        s.wf(),
    ensures
        s.stage is Resolving || s.stage is Crawling ==> holds_no_docs(s.report),
        s.stage is Enriching || s.stage is Finished ==> (s.report.docs_rs_root is Some
            <==> s.report.docs_rs_pages_count >= 1),
        s.stage is Enriching || s.stage is Finished ==> docs_are_settled(s.report),
{
}

/// Every request that a pipeline names carries a time allowance of some
/// seconds: never less than eight, never more than twelve.
pub proof fn law_every_request_is_timed(s: PipelineView)
    ensures
        s.due() matches Some(r) ==> 8 <= r.timeout_secs <= 12,
{
}

/// A package whose version cannot be resolved is reported by its name and
/// the one error, and nothing else; the pipeline asks for nothing more.
pub proof fn law_failed_resolution_reports_name_only(s: PipelineView, cause: Seq<char>)
    requires
        s.wf(),
        s.stage matches StageView::Resolving(r) && r.result == Some(
            Err::<ResolvedView, Seq<char>>(cause),
        ),
    ensures
        s.polled().stage is Finished,
        s.polled().due() is None,
        s.polled().report.name == s.crate_name,
        s.polled().report.errors.len() == 1,
        s.polled().report == (CrateResultView {
            errors: s.polled().report.errors,
            ..empty_report(s.crate_name)
        }),
{
}

/// The stages that a pipeline has before it, its own counted.
pub open spec fn stages_left(s: PipelineView) -> int {
    match s.stage {
        StageView::Resolving(r) => 3,
        StageView::Crawling(c) => 2,
        StageView::Enriching(g) => 1,
        StageView::Finished => 0,
    }
}

/// How far the work of the stage is from its end, in the first place.
pub open spec fn work_left(s: PipelineView) -> int {
    match s.stage {
        StageView::Resolving(r) => answers_left(r.phase),
        StageView::Crawling(c) => budget_left(c),
        StageView::Enriching(g) => phase_rank(g.phase),
        StageView::Finished => 0,
    }
}

/// How far the work of the stage is from its end, in the second place.
pub open spec fn effort(s: PipelineView) -> int {
    match s.stage {
        StageView::Resolving(r) => 0,
        StageView::Crawling(c) => effort_left(c),
        StageView::Enriching(g) => files_left(g),
        StageView::Finished => 0,
    }
}

/// The state after one round: the pipeline is asked for its next request
/// and handed the outcome.
pub open spec fn round(s: PipelineView, o: Outcome) -> PipelineView {
    s.polled().delivered(o)
}

/// The state after the first `n` rounds, the outcomes taken from `outcomes`
/// in order.
pub open spec fn after_rounds(s: PipelineView, outcomes: spec_fn(nat) -> Outcome, n: nat) -> PipelineView
    decreases n,
{
    if n == 0 {
        s
    } else {
        round(after_rounds(s, outcomes, (n - 1) as nat), outcomes((n - 1) as nat))
    }
}

/// A round in which a request is due brings the pipeline nearer to its end:
/// it reaches a later stage, or the work of its stage comes nearer to its
/// end.
pub proof fn law_round_brings_pipeline_nearer_end(s: PipelineView, o: Outcome)
    requires
        s.wf(),
        !(s.polled().stage is Finished),
    ensures
        round(s, o).wf(),
        0 <= stages_left(round(s, o)) <= stages_left(s),
        0 <= work_left(round(s, o)),
        0 <= effort(round(s, o)),
        stages_left(round(s, o)) < stages_left(s) || work_left(round(s, o)) < work_left(s) || (
        work_left(round(s, o)) == work_left(s) && effort(round(s, o)) < effort(s)),
{
    law_report_within_limits(s, o);
    law_report_within_limits(s.polled(), o);
    match s.stage {
        StageView::Resolving(r) => {
            if r.result is None {
                law_outcome_brings_resolution_nearer_end(r, o);
            }
        },
        StageView::Crawling(c) => {
            if c.polled().fetching is Some {
                law_round_brings_crawl_nearer_end(c, body_of(o));
            }
        },
        StageView::Enriching(g) => {
            law_outcome_brings_repository_nearer_end(g, body_of(o), is_success(o));
        },
        StageView::Finished => {},
    }
}

/// Every pipeline finishes, whatever the outcomes of its requests: after
/// some number of rounds it asks for nothing more, and its report is within
/// the limits of the query.
pub proof fn law_pipeline_finishes(s: PipelineView, outcomes: spec_fn(nat) -> Outcome) -> (n: nat)
    requires
        s.wf(),
    ensures
        after_rounds(s, outcomes, n).polled().stage is Finished,
        after_rounds(s, outcomes, n).polled().due() is None,
        after_rounds(s, outcomes, n).polled().report.docs_rs_pages_count <= s.docs_max_pages,
        after_rounds(s, outcomes, n).polled().report.github_examples.len()
            <= s.examples_max_files,
        docs_are_settled(after_rounds(s, outcomes, n).polled().report),
{
    lemma_pipeline_finishes_from(s, outcomes, 0)
}

proof fn lemma_pipeline_finishes_from(
    s: PipelineView,
    outcomes: spec_fn(nat) -> Outcome,
    k: nat,
) -> (n: nat)
    requires
        after_rounds(s, outcomes, k).wf(),
        after_rounds(s, outcomes, k).docs_max_pages == s.docs_max_pages,
        after_rounds(s, outcomes, k).examples_max_files == s.examples_max_files,
    ensures
        after_rounds(s, outcomes, n).polled().stage is Finished,
        after_rounds(s, outcomes, n).polled().report.docs_rs_pages_count <= s.docs_max_pages,
        after_rounds(s, outcomes, n).polled().report.github_examples.len()
            <= s.examples_max_files,
        docs_are_settled(after_rounds(s, outcomes, n).polled().report),
    decreases
            stages_left(after_rounds(s, outcomes, k)),
            work_left(after_rounds(s, outcomes, k)),
            effort(after_rounds(s, outcomes, k)),
{
    let now = after_rounds(s, outcomes, k);
    law_report_within_limits(now, outcomes(k));
    if now.polled().stage is Finished {
        k
    } else {
        law_round_brings_pipeline_nearer_end(now, outcomes(k));
        assert(after_rounds(s, outcomes, k + 1) == round(now, outcomes(k)));
        lemma_pipeline_finishes_from(s, outcomes, k + 1)
    }
}

/// Whether two reports hold the same of what the resolution of the version
/// gives: name, version, dependency line, description and repository.
pub open spec fn same_resolution(a: CrateResultView, b: CrateResultView) -> bool {
    &&& a.name == b.name
    &&& a.latest_version == b.latest_version
    &&& a.dependency_line == b.dependency_line
    &&& a.description == b.description
    &&& a.repository == b.repository
}

/// A resolved package is reported as it was resolved: once the resolution
/// has given a version, the report holds that version, the line that
/// declares the dependency on it, which is never empty, and the description
/// and the repository that the resolution gave.
pub proof fn law_resolved_package_is_reported(s: PipelineView, p: ResolvedView)
    requires
        s.wf(),
        s.stage matches StageView::Resolving(r) && r.result == Some(
            Ok::<ResolvedView, Seq<char>>(p),
        ),
    ensures
        !(s.polled().stage is Resolving),
        s.polled().report.name == s.crate_name,
        s.polled().report.latest_version == p.version,
        s.polled().report.dependency_line == dependency_line(s.crate_name, p.version),
        s.polled().report.dependency_line.len() > 0,
        s.polled().report.description == p.description,
        s.polled().report.repository == p.repository,
{
    reveal_strlit(" = \"");
    assert(dependency_line(s.crate_name, p.version).len() >= " = \""@.len());
}

/// What the resolution gave stays in the report: a round of a pipeline that
/// is past the resolution changes nothing of it.
pub proof fn law_round_keeps_what_was_resolved(s: PipelineView, o: Outcome)
    requires
        s.wf(),
        !(s.stage is Resolving),
    ensures
        !(s.polled().stage is Resolving),
        !(round(s, o).stage is Resolving),
        same_resolution(s.polled().report, s.report),
        same_resolution(round(s, o).report, s.report),
{
}

/// What the resolution gave stays in the report to the end, whatever the
/// outcomes of the later requests.
pub proof fn law_resolution_stays_reported(
    s: PipelineView,
    outcomes: spec_fn(nat) -> Outcome,
    n: nat,
)
    requires
        s.wf(),
        !(s.stage is Resolving),
    ensures
        after_rounds(s, outcomes, n).wf(),
        !(after_rounds(s, outcomes, n).stage is Resolving),
        same_resolution(after_rounds(s, outcomes, n).report, s.report),
        same_resolution(after_rounds(s, outcomes, n).polled().report, s.report),
    decreases n,
{
    if n > 0 {
        let before = after_rounds(s, outcomes, (n - 1) as nat);
        law_resolution_stays_reported(s, outcomes, (n - 1) as nat);
        law_report_within_limits(before, outcomes((n - 1) as nat));
        law_report_within_limits(before.polled(), outcomes((n - 1) as nat));
        law_round_keeps_what_was_resolved(before, outcomes((n - 1) as nat));
    }
    law_round_keeps_what_was_resolved(
        after_rounds(s, outcomes, n),
        outcomes(n),
    );
}

/// The report of a finished pipeline holds no error exactly where it is
/// complete; and a complete report names the version, the line that
/// declares the dependency on it, which is not empty, and the address of
/// the documentation, with at least one page stored.
pub proof fn law_report_without_error_is_complete(s: PipelineView)
    requires
        s.wf(),
        s.stage is Finished,
    ensures
        s.report.errors.len() == 0 <==> is_complete(s.report),
        is_complete(s.report) ==> {
            &&& s.report.dependency_line == dependency_line(s.crate_name, s.report.latest_version)
            &&& s.report.dependency_line.len() > 0
            &&& s.report.docs_rs_root == Some(docs_root(s.crate_name, s.report.latest_version))
            &&& s.report.docs_text_aggregate is Some
            &&& 1 <= s.report.docs_rs_pages_count <= s.docs_max_pages
        },
{
    reveal_strlit(" = \"");
    assert(dependency_line(s.crate_name, s.report.latest_version).len() >= " = \""@.len());
}

/// No package's report depends on the other packages of its batch: a name
/// is planned alike in every query that sets the same limits, so that with
/// the same outcomes of its own requests its pipeline goes the same way and
/// ends with the same report.
pub proof fn law_package_is_reported_alike_in_every_batch(
    a: QueryRustDocsArgs,
    i: int,
    b: QueryRustDocsArgs,
    j: int,
    outcomes: spec_fn(nat) -> Outcome,
    n: nat,
)
    requires
        0 <= i < a.crates.len(),
        0 <= j < b.crates.len(),
        a.crates@[i]@ == b.crates@[j]@,
        limit_or(a.docs_max_pages, DEFAULT_MAX_PAGES) == limit_or(
            b.docs_max_pages,
            DEFAULT_MAX_PAGES,
        ),
        limit_or(a.examples_max_files, DEFAULT_MAX_FILES) == limit_or(
            b.examples_max_files,
            DEFAULT_MAX_FILES,
        ),
    ensures
        planned(a)[i] == planned(b)[j],
        after_rounds(planned(a)[i], outcomes, n) == after_rounds(planned(b)[j], outcomes, n),
        after_rounds(planned(a)[i], outcomes, n).polled().report == after_rounds(
            planned(b)[j],
            outcomes,
            n,
        ).polled().report,
{
}

enum Stage {
    Resolving(Resolver),
    Crawling(Crawl),
    Enriching(Repo),
    Finished,
}

/// The work on one package.
pub struct Pipeline {
    crate_name: String,
    docs_max_pages: usize,
    examples_max_files: usize,
    stage: Stage,
    report: CrateResult,
}

impl View for Stage {
    type V = StageView;

    closed spec fn view(&self) -> StageView {
        match self {
            Stage::Resolving(r) => StageView::Resolving(r@),
            Stage::Crawling(c) => StageView::Crawling(c@),
            Stage::Enriching(g) => StageView::Enriching(g@),
            Stage::Finished => StageView::Finished,
        }
    }
}

impl View for Pipeline {
    type V = PipelineView;

    closed spec fn view(&self) -> PipelineView {
        PipelineView {
            crate_name: self.crate_name@,
            docs_max_pages: self.docs_max_pages as nat,
            examples_max_files: self.examples_max_files as nat,
            stage: self.stage@,
            report: self.report@,
        }
    }
}

fn report_failure(name: &str, cause: &str) -> (r: CrateResult)
    ensures
        r@ == failure_report(name@, cause@),
{
    let mut r = blank_report(name);
    let mut msg = String::from_str("Failed to fetch crates.io metadata: ");
    msg.append(cause);
    let ghost before = texts(r.errors@);
    r.errors.push(msg);
    assert(texts(r.errors@) =~= before.push(msg@));
    assert(texts(r.errors@) =~= failure_report(name@, cause@).errors);
    r
}

fn report_resolved(name: &str, p: ResolvedPackage) -> (r: CrateResult)
    ensures
        r@ == resolved_report(name@, p@),
{
    let mut r = blank_report(name);
    let mut line = String::from_str(name);
    line.append(" = \"");
    line.append(p.version.as_str());
    line.append("\"");
    r.dependency_line = line;
    r.latest_version = p.version;
    r.description = p.description;
    r.repository = p.repository;
    r
}

fn report_docs(report: CrateResult, pages: &Vec<String>) -> (r: CrateResult)
    ensures
        r@ == with_docs(report@, texts(pages@)),
{
    let mut r = report;
    if pages.len() > 0 {
        let html = join_texts(pages, "\n");
        let mut root = String::from_str("https://docs.rs/");
        root.append(r.name.as_str());
        root.append("/");
        root.append(r.latest_version.as_str());
        root.append("/");
        r.docs_rs_root = Some(root);
        r.docs_rs_pages_count = pages.len();
        r.docs_anchor_items = extract_anchor_items_from_html(html.as_str(), ANCHOR_LIMIT);
        r.docs_text_aggregate = Some(extract_text_aggregate(html.as_str()));
        r.docs_code_snippets = extract_code_blocks_from_html(html.as_str(), SNIPPET_LIMIT);
    } else {
        let mut msg = String::from_str("Failed to fetch docs.rs pages for ");
        msg.append(r.name.as_str());
        msg.append(" ");
        msg.append(r.latest_version.as_str());
        let ghost before = texts(r.errors@);
        r.errors.push(msg);
        assert(texts(r.errors@) =~= before.push(msg@));
    }
    r
}

fn report_repo(report: CrateResult, repo: Repo) -> (r: CrateResult)
    ensures
        r@ == with_repo(report@, repo@),
{
    let mut r = report;
    let (readme, examples, errors) = repo.output();
    r.github_readme = readme;
    r.github_examples = examples;
    let ghost before = texts(r.errors@);
    let mut errors = errors;
    let ghost added = texts(errors@);
    r.errors.append(&mut errors);
    assert(texts(r.errors@) =~= before + added);
    r
}

impl Pipeline {
    /// The work on the package `crate_name`, with nothing asked yet.
    pub fn new(crate_name: &str, docs_max_pages: usize, examples_max_files: usize) -> (p: Pipeline)
        ensures
            p@ == PipelineView::initial(
                crate_name@,
                docs_max_pages as nat,
                examples_max_files as nat,
            ),
            p@.wf(),
    {
        Pipeline {
            crate_name: String::from_str(crate_name),
            docs_max_pages,
            examples_max_files,
            stage: Stage::Resolving(Resolver::new(crate_name)),
            report: blank_report(crate_name),
        }
    }

    fn crawl_on(&mut self, crawl: Crawl) -> (r: Option<Request>)
        requires
            crawl@.wf(),
        ensures
            final(self)@ == old(self)@.crawl_on(crawl@),
            request_view(r) == final(self)@.due(),
    {
        let mut crawl = crawl;
        match crawl.poll() {
            Some(req) => {
                self.stage = Stage::Crawling(crawl);
                Some(req)
            },
            None => {
                let mut report = blank_report("");
                std::mem::swap(&mut self.report, &mut report);
                let (pages, _count, _visited) = crawl.into_output();
                let report = report_docs(report, &pages);
                let found = match &report.repository {
                    Some(address) => parse_github_owner_repo(address.as_str()),
                    None => None,
                };
                self.report = report;
                match found {
                    Some((owner, name)) => {
                        let repo = Repo::new(owner.as_str(), name.as_str(), self.examples_max_files);
                        let req = repo.due();
                        self.stage = Stage::Enriching(repo);
                        req
                    },
                    None => {
                        self.stage = Stage::Finished;
                        None
                    },
                }
            },
        }
    }

    /// The request to perform next; `None` when the pipeline has finished.
    pub fn poll(&mut self) -> (r: Option<Request>)
        requires
            old(self)@.wf(),
        ensures
            final(self)@ == old(self)@.polled(),
            final(self)@.wf(),
            request_view(r) == final(self)@.due(),
            r is None <==> final(self)@.stage is Finished,
    {
        proof {
            law_report_within_limits(self@, Outcome::TimedOut);
        }
        let mut stage = Stage::Finished;
        std::mem::swap(&mut self.stage, &mut stage);
        match stage {
            Stage::Resolving(resolver) => {
                match resolver.due() {
                    Some(req) => {
                        self.stage = Stage::Resolving(resolver);
                        Some(req)
                    },
                    None => {
                        match resolver.finish() {
                            Some(Ok(p)) => {
                                let crawl = Crawl::new(
                                    self.crate_name.as_str(),
                                    p.version.as_str(),
                                    self.docs_max_pages,
                                );
                                self.report = report_resolved(self.crate_name.as_str(), p);
                                self.crawl_on(crawl)
                            },
                            Some(Err(cause)) => {
                                self.report = report_failure(
                                    self.crate_name.as_str(),
                                    cause.as_str(),
                                );
                                None
                            },
                            None => None,
                        }
                    },
                }
            },
            Stage::Crawling(crawl) => self.crawl_on(crawl),
            Stage::Enriching(repo) => {
                match repo.due() {
                    Some(req) => {
                        self.stage = Stage::Enriching(repo);
                        Some(req)
                    },
                    None => {
                        let mut report = blank_report("");
                        std::mem::swap(&mut self.report, &mut report);
                        self.report = report_repo(report, repo);
                        None
                    },
                }
            },
            Stage::Finished => None,
        }
    }

    /// Takes the outcome of the request that `poll` named last.
    pub fn deliver(&mut self, outcome: Outcome)
        requires
            old(self)@.wf(),
        ensures
            final(self)@ == old(self)@.delivered(outcome),
            final(self)@.wf(),
    {
        proof {
            law_report_within_limits(self@, outcome);
        }
        let mut stage = Stage::Finished;
        std::mem::swap(&mut self.stage, &mut stage);
        match stage {
            Stage::Resolving(resolver) => {
                let mut resolver = resolver;
                resolver.deliver(outcome);
                self.stage = Stage::Resolving(resolver);
            },
            Stage::Crawling(crawl) => {
                let mut crawl = crawl;
                crawl.deliver(outcome);
                self.stage = Stage::Crawling(crawl);
            },
            Stage::Enriching(repo) => {
                let mut repo = repo;
                repo.deliver(outcome);
                self.stage = Stage::Enriching(repo);
            },
            Stage::Finished => {},
        }
    }

    /// The report, as far as it is written: complete once `poll` has
    /// returned `None`.
    pub fn into_report(self) -> (r: CrateResult)
        ensures
            r@ == self@.report,
    {
        self.report
    }
}

/// The views of a list of pipelines.
pub open spec fn pipelines(v: Seq<Pipeline>) -> Seq<PipelineView> {
    Seq::new(v.len(), |i: int| v[i]@)
}

/// What a query leads to: guidance where it names no package, else one
/// pipeline for each name.
pub enum Plan {
    Guidance(Guidance),
    Run(Vec<Pipeline>),
}

/// The limit that a query sets, or the usual one.
pub open spec fn limit_or(limit: Option<usize>, usual: usize) -> nat {
    match limit {
        Some(n) => n as nat,
        None => usual as nat,
    }
}

/// The pipelines of a query: one for each name, in order, each with the
/// query's limits.
pub open spec fn planned(args: QueryRustDocsArgs) -> Seq<PipelineView> {
    Seq::new(
        args.crates.len() as nat,
        |i: int|
            PipelineView::initial(
                args.crates@[i]@,
                limit_or(args.docs_max_pages, DEFAULT_MAX_PAGES),
                limit_or(args.examples_max_files, DEFAULT_MAX_FILES),
            ),
    )
}

/// Every package of a query gets its pipeline: the plan holds one
/// well-formed pipeline for each name, in order, with the limits of the
/// query.
pub proof fn law_every_name_is_planned(args: QueryRustDocsArgs, i: int)
    requires
        0 <= i < args.crates.len(),
    ensures
        planned(args).len() == args.crates.len(),
        planned(args)[i].wf(),
        planned(args)[i].crate_name == args.crates@[i]@,
        planned(args)[i].docs_max_pages == limit_or(args.docs_max_pages, DEFAULT_MAX_PAGES),
        planned(args)[i].examples_max_files == limit_or(
            args.examples_max_files,
            DEFAULT_MAX_FILES,
        ),
{
}

/// Plans the work on a query. A query that names no package is answered
/// with guidance and starts no pipeline, so that nothing is asked of the
/// network.
pub fn plan_batch(args: &QueryRustDocsArgs) -> (p: Plan)
    ensures
        args.crates.len() == 0 <==> p is Guidance,
        p matches Plan::Guidance(g) ==> g.error@ == NO_NAMES_ERROR@ && g.message@
            == GUIDANCE_MESSAGE@,
        p matches Plan::Run(ps) ==> pipelines(ps@) == planned(*args) && forall|i: int|
            0 <= i < ps.len() ==> (#[trigger] ps@[i])@.wf(),
{
    if args.crates.len() == 0 {
        return Plan::Guidance(
            Guidance {
                error: String::from_str(NO_NAMES_ERROR),
                message: String::from_str(GUIDANCE_MESSAGE),
            },
        );
    }
    let max_pages = match args.docs_max_pages {
        Some(n) => n,
        None => DEFAULT_MAX_PAGES,
    };
    let max_files = match args.examples_max_files {
        Some(n) => n,
        None => DEFAULT_MAX_FILES,
    };
    let mut ps: Vec<Pipeline> = Vec::new();
    let mut i: usize = 0;
    while i < args.crates.len()
        invariant
            i <= args.crates.len(),
            ps.len() == i,
            max_pages == limit_or(args.docs_max_pages, DEFAULT_MAX_PAGES),
            max_files == limit_or(args.examples_max_files, DEFAULT_MAX_FILES),
            forall|j: int| 0 <= j < i ==> (#[trigger] ps@[j])@ == planned(*args)[j],
            forall|j: int| 0 <= j < i ==> (#[trigger] ps@[j])@.wf(),
        decreases args.crates.len() - i,
    {
        ps.push(Pipeline::new(args.crates[i].as_str(), max_pages, max_files));
        i += 1;
    }
    assert(pipelines(ps@) =~= planned(*args));
    Plan::Run(ps)
}

} // verus!
