use crate_docs::fetch::Outcome;
use crate_docs::json::read_text_member;
use crate_docs::registry::{
    backfill, read_candidate, read_listing, read_record, resolve_from_outcome,
    resolve_from_record, select_best_version, CrateRecord, ResolvedPackage, Resolver,
    VersionCandidate,
};

fn cand(num: &str, yanked: bool) -> VersionCandidate {
    VersionCandidate { num: num.to_string(), yanked, description: None, repository: None }
}

fn version(r: Option<ResolvedPackage>) -> Option<String> {
    r.map(|p| p.version)
}

fn parts(r: Result<ResolvedPackage, String>) -> Result<(String, Option<String>, Option<String>), String> {
    r.map(|p| (p.version, p.description, p.repository))
}

fn some(s: &str) -> Option<String> {
    Some(s.to_string())
}

fn resolve(name: &str, site: &dyn Fn(&str) -> Outcome) -> (Vec<(String, u64)>, Result<(String, Option<String>, Option<String>), String>) {
    let mut resolver = Resolver::new(name);
    let mut asked = Vec::new();
    while let Some(req) = resolver.due() {
        let outcome = site(&req.url);
        asked.push((req.url, req.timeout_secs));
        resolver.deliver(outcome);
        assert!(asked.len() < 10);
    }
    (asked, parts(resolver.finish().unwrap()))
}

const LISTING: &str = r#"{"versions":[
    {"num":"0.4.2","yanked":false,"description":"first found","links":{"repository":"https://github.com/o/list"}},
    {"num":"0.10.0","yanked":false,"description":"second"},
    {"num":"9.9.9","yanked":true,"description":"withdrawn"},
    {"yanked":false},
    {"num":7},
    {"num":"0.10.0-rc1"}
]}"#;

const RECORD: &str = r#"{"crate":{"max_version":"0.9.0","newest_version":"0.9.1","description":"from record","repository":"https://github.com/o/record","documentation":"https://docs.rs/alpha"}}"#;

#[test]
fn text_member_reads_strings_only() {
    assert_eq!(read_text_member(r#"{"a":"x","b":1}"#, "a"), some("x"));
    assert_eq!(read_text_member(r#"{"a":"x","b":1}"#, "b"), None);
    assert_eq!(read_text_member(r#"{"a":"x","b":1}"#, "c"), None);
    assert_eq!(read_text_member(r#"["a"]"#, "a"), None);
    assert_eq!(read_text_member("not json", "a"), None);
    assert_eq!(read_text_member(r#"{"a":"q\"é\n"}"#, "a"), some("q\"\u{e9}\n"));
}

#[test]
fn withdrawn_version_is_never_chosen() {
    let cands = vec![cand("1.0.0", false), cand("9.0.0", true), cand("1.2.0", false)];
    assert_eq!(version(select_best_version(&cands)), some("1.2.0"));
    let cands = vec![cand("9.0.0", true), cand("8.0.0", true)];
    assert_eq!(version(select_best_version(&cands)), None);
    assert_eq!(version(select_best_version(&Vec::new())), None);
}

#[test]
fn first_of_equal_rank_is_chosen() {
    let cands = vec![cand("1.0", false), cand("1.0.0", false), cand("1.0.0-rc", false)];
    assert_eq!(version(select_best_version(&cands)), some("1.0"));
}

#[test]
fn release_is_chosen_over_prerelease_of_same_numbers() {
    let cands = vec![cand("1.2.0-rc1", false), cand("1.2.0", false), cand("1.1.9", false)];
    assert_eq!(version(select_best_version(&cands)), some("1.2.0"));
}

#[test]
fn first_description_and_repository_of_live_candidates() {
    let cands = vec![
        VersionCandidate { num: "3.0.0".into(), yanked: true, description: some("gone"), repository: some("gone") },
        VersionCandidate { num: "1.0.0".into(), yanked: false, description: None, repository: some("repo one") },
        VersionCandidate { num: "2.0.0".into(), yanked: false, description: some("two"), repository: some("repo two") },
    ];
    let p = select_best_version(&cands).unwrap();
    assert_eq!(p.version, "2.0.0");
    assert_eq!(p.description, some("two"));
    assert_eq!(p.repository, some("repo one"));
}

#[test]
fn candidate_is_read_from_entry() {
    let c = read_candidate(r#"{"num":"1.0.0","yanked":true,"description":"d","links":{"repository":"r"}}"#).unwrap();
    assert_eq!((c.num.as_str(), c.yanked, c.description, c.repository), ("1.0.0", true, some("d"), some("r")));
    let c = read_candidate(r#"{"num":"1.0.0","yanked":"yes","links":{"repository":3}}"#).unwrap();
    assert_eq!((c.num.as_str(), c.yanked, c.description, c.repository), ("1.0.0", false, None, None));
    assert!(read_candidate(r#"{"yanked":false}"#).is_none());
    assert!(read_candidate("[]").is_none());
}

#[test]
fn listing_skips_entries_without_version() {
    let cands = read_listing(LISTING).unwrap();
    let nums: Vec<(&str, bool)> = cands.iter().map(|c| (c.num.as_str(), c.yanked)).collect();
    assert_eq!(nums, vec![("0.4.2", false), ("0.10.0", false), ("9.9.9", true), ("0.10.0-rc1", false)]);
    assert!(read_listing(r#"{"versions":{}}"#).is_none());
    assert!(read_listing(r#"{"other":[]}"#).is_none());
    assert!(read_listing("oops").is_none());
    assert_eq!(read_listing(r#"{"versions":[]}"#).unwrap().len(), 0);
}

#[test]
fn record_is_read_from_answer() {
    let r = read_record(RECORD);
    assert_eq!(r.fault, None);
    assert!(r.found);
    assert_eq!(r.latest, some("0.9.0"));
    assert_eq!(r.description, some("from record"));
    assert_eq!(r.repository, some("https://github.com/o/record"));
    assert_eq!(r.documentation, some("https://docs.rs/alpha"));
    let r = read_record(r#"{"crate":{"newest_version":"0.9.1"}}"#);
    assert_eq!(r.latest, some("0.9.1"));
    let r = read_record(r#"{"crate":{"max_version":5,"newest_version":"0.9.1"}}"#);
    assert_eq!(r.latest, None);
    let r = read_record(r#"{"errors":[]}"#);
    assert!(!r.found);
    assert_eq!(r.fault, None);
    let r = read_record("<html>");
    assert!(!r.found);
    assert_eq!(r.fault, some("expected value at line 1 column 1"));
}

#[test]
fn record_backfills_what_the_list_lacks() {
    let p = ResolvedPackage { version: "1.0.0".into(), description: None, repository: None };
    let r = CrateRecord { fault: None, found: true, latest: some("2.0.0"), description: some("d"), repository: None, documentation: some("docs") };
    let out = backfill(p, r);
    assert_eq!((out.version.as_str(), out.description, out.repository), ("1.0.0", some("d"), some("docs")));
    let p = ResolvedPackage { version: "1.0.0".into(), description: some("mine"), repository: some("repo") };
    let r = CrateRecord { fault: None, found: true, latest: None, description: some("d"), repository: some("other"), documentation: some("docs") };
    let out = backfill(p, r);
    assert_eq!((out.version.as_str(), out.description, out.repository), ("1.0.0", some("mine"), some("repo")));
}

#[test]
fn record_alone_settles_or_fails() {
    let r = CrateRecord { fault: None, found: true, latest: some("2.0.0"), description: some("d"), repository: None, documentation: some("docs") };
    assert_eq!(parts(resolve_from_record("alpha", r)), Ok(("2.0.0".to_string(), some("d"), some("docs"))));
    let r = CrateRecord { fault: None, found: true, latest: None, description: None, repository: None, documentation: None };
    assert_eq!(parts(resolve_from_record("alpha", r)), Err("could not determine latest version for 'alpha'".to_string()));
    let r = CrateRecord { fault: None, found: false, latest: None, description: None, repository: None, documentation: None };
    assert_eq!(parts(resolve_from_record("alpha", r)), Err("unexpected crates.io shape for 'alpha'".to_string()));
    let r = CrateRecord { fault: some("bad"), found: false, latest: None, description: None, repository: None, documentation: None };
    assert_eq!(parts(resolve_from_record("alpha", r)), Err("invalid JSON from crates.io for 'alpha': bad".to_string()));
}

#[test]
fn each_outcome_of_the_record_request_has_its_cause() {
    assert_eq!(
        parts(resolve_from_outcome("alpha", Outcome::TimedOut)),
        Err("timeout fetching crates.io for 'alpha'".to_string())
    );
    assert_eq!(
        parts(resolve_from_outcome("alpha", Outcome::Failed("dns".into()))),
        Err("network error fetching crates.io for 'alpha': dns".to_string())
    );
    assert_eq!(
        parts(resolve_from_outcome("alpha", Outcome::Refused("404 Not Found".into()))),
        Err("crates.io returned 404 Not Found for 'alpha'".to_string())
    );
    assert_eq!(
        parts(resolve_from_outcome("alpha", Outcome::Unreadable("cut short".into()))),
        Err("invalid JSON from crates.io for 'alpha': cut short".to_string())
    );
    assert_eq!(
        parts(resolve_from_outcome("alpha", Outcome::Body("{}".into()))),
        Err("unexpected crates.io shape for 'alpha'".to_string())
    );
    assert_eq!(
        parts(resolve_from_outcome("alpha", Outcome::Body(RECORD.into()))),
        Ok(("0.9.0".to_string(), some("from record"), some("https://github.com/o/record")))
    );
}

#[test]
fn resolution_by_list_then_backfill() {
    let site = |url: &str| -> Outcome {
        match url {
            "https://crates.io/api/v1/crates/alpha/versions" => Outcome::Body(LISTING.to_string()),
            "https://crates.io/api/v1/crates/alpha" => Outcome::Body(RECORD.to_string()),
            _ => Outcome::TimedOut,
        }
    };
    let (asked, result) = resolve("alpha", &site);
    assert_eq!(
        asked,
        vec![
            ("https://crates.io/api/v1/crates/alpha/versions".to_string(), 12),
            ("https://crates.io/api/v1/crates/alpha".to_string(), 10),
        ]
    );
    assert_eq!(result, Ok(("0.10.0".to_string(), some("first found"), some("https://github.com/o/list"))));
}

#[test]
fn resolution_keeps_list_findings_without_record() {
    let site = |url: &str| -> Outcome {
        match url {
            "https://crates.io/api/v1/crates/alpha/versions" => Outcome::Body(r#"{"versions":[{"num":"1.0.0"}]}"#.to_string()),
            _ => Outcome::TimedOut,
        }
    };
    let (_, result) = resolve("alpha", &site);
    assert_eq!(result, Ok(("1.0.0".to_string(), None, None)));
    let site = |url: &str| -> Outcome {
        match url {
            "https://crates.io/api/v1/crates/alpha/versions" => Outcome::Body(r#"{"versions":[{"num":"1.0.0"}]}"#.to_string()),
            _ => Outcome::Body(r#"{"crate":{"documentation":"docs"}}"#.to_string()),
        }
    };
    let (_, result) = resolve("alpha", &site);
    assert_eq!(result, Ok(("1.0.0".to_string(), None, some("docs"))));
}

#[test]
fn resolution_falls_back_to_record() {
    let site = |url: &str| -> Outcome {
        match url {
            "https://crates.io/api/v1/crates/alpha/versions" => Outcome::Body(r#"{"versions":[{"num":"1.0.0","yanked":true}]}"#.to_string()),
            "https://crates.io/api/v1/crates/alpha" => Outcome::Body(RECORD.to_string()),
            _ => Outcome::TimedOut,
        }
    };
    let (asked, result) = resolve("alpha", &site);
    assert_eq!(
        asked,
        vec![
            ("https://crates.io/api/v1/crates/alpha/versions".to_string(), 12),
            ("https://crates.io/api/v1/crates/alpha".to_string(), 12),
        ]
    );
    assert_eq!(result, Ok(("0.9.0".to_string(), some("from record"), some("https://github.com/o/record"))));
}

#[test]
fn resolution_falls_back_when_list_request_fails() {
    let site = |url: &str| -> Outcome {
        match url {
            "https://crates.io/api/v1/crates/alpha" => Outcome::Body(RECORD.to_string()),
            _ => Outcome::TimedOut,
        }
    };
    let (_, result) = resolve("alpha", &site);
    assert_eq!(result, Ok(("0.9.0".to_string(), some("from record"), some("https://github.com/o/record"))));
}

#[test]
fn resolution_fails_when_neither_path_yields() {
    let (asked, result) = resolve("alpha", &|_| Outcome::Refused("500 Internal Server Error".into()));
    assert_eq!(asked.len(), 2);
    assert_eq!(result, Err("crates.io returned 500 Internal Server Error for 'alpha'".to_string()));
}
