use crate_docs::fetch::{Outcome, Request};
use crate_docs::github::{
    list_example_paths, parse_github_owner_repo, read_declared_branch, read_example_path, Repo,
};

fn pair(a: &str, b: &str) -> Option<(String, String)> {
    Some((a.to_string(), b.to_string()))
}

fn refused() -> Outcome {
    Outcome::Refused("404 Not Found".to_string())
}

fn run(repo: &mut Repo, site: &dyn Fn(&str) -> Outcome) -> Vec<Request> {
    let mut asked = Vec::new();
    while let Some(req) = repo.due() {
        let outcome = site(&req.url);
        asked.push(req);
        repo.deliver(outcome);
        assert!(asked.len() < 1000);
    }
    asked
}

#[test]
fn owner_and_repo_from_plain_address() {
    assert_eq!(parse_github_owner_repo("https://github.com/owner/repo"), pair("owner", "repo"));
    assert_eq!(parse_github_owner_repo("git@github.com/owner/repo.git"), pair("owner", "repo"));
    assert_eq!(parse_github_owner_repo("https://github.com/owner/repo/"), pair("owner", "repo"));
    assert_eq!(parse_github_owner_repo("https://github.com/owner/repo.git.git"), pair("owner", "repo"));
}

#[test]
fn owner_and_repo_take_first_two_segments() {
    assert_eq!(
        parse_github_owner_repo("https://github.com/owner/repo/tree/main/sub"),
        pair("owner", "repo")
    );
    assert_eq!(parse_github_owner_repo("https://github.com//repo"), pair("", "repo"));
}

#[test]
fn git_suffix_before_slash_stays() {
    assert_eq!(parse_github_owner_repo("https://github.com/owner/repo.git/"), pair("owner", "repo.git"));
}

#[test]
fn other_addresses_name_no_repository() {
    assert_eq!(parse_github_owner_repo("https://gitlab.com/owner/repo"), None);
    assert_eq!(parse_github_owner_repo("https://github.com/owner"), None);
    assert_eq!(parse_github_owner_repo("https://github.com/"), None);
    assert_eq!(parse_github_owner_repo("https://docs.rs/alpha"), None);
    assert_eq!(parse_github_owner_repo(""), None);
}

#[test]
fn declared_branch_is_read_from_page() {
    assert_eq!(
        read_declared_branch("<div data-default-branch=\"trunk\" data-x=\"y\">"),
        Some("trunk".to_string())
    );
    assert_eq!(read_declared_branch("<div data-default-branch=\"\">"), None);
    assert_eq!(read_declared_branch("<div data-default-branch=\"trunk"), None);
    assert_eq!(read_declared_branch("<div>"), None);
}

#[test]
fn example_path_follows_branch() {
    assert_eq!(
        read_example_path("/owner/repo/blob/main/examples/a.rs", "owner", "repo", "main"),
        Some("examples/a.rs".to_string())
    );
    assert_eq!(
        read_example_path(
            "https://github.com/owner/repo/blob/main/examples/sub/a.rs",
            "owner",
            "repo",
            "main"
        ),
        Some("examples/sub/a.rs".to_string())
    );
    assert_eq!(read_example_path("/owner/repo/blob/dev/examples/a.rs", "owner", "repo", "main"), None);
    assert_eq!(read_example_path("/owner/repo/blob/main/src/a.rs", "owner", "repo", "main"), None);
    assert_eq!(read_example_path("/other/repo/blob/main/examples/a.rs", "owner", "repo", "main"), None);
    assert_eq!(read_example_path("/owner/fork/blob/main/examples/a.rs", "owner", "repo", "main"), None);
    assert_eq!(read_example_path("/owner/blob/main/examples/a.rs", "owner", "repo", "main"), None);
    assert_eq!(read_example_path("/owner/repo/tree/main/examples/a", "owner", "repo", "main"), None);
}

#[test]
fn link_to_the_example_directory_itself_gives_no_path() {
    assert_eq!(read_example_path("/owner/repo/blob/main/examples/", "owner", "repo", "main"), None);
    assert_eq!(read_example_path("/owner/repo/blob/main/examples", "owner", "repo", "main"), None);
}

#[test]
fn example_path_starts_at_the_example_directory() {
    assert_eq!(
        read_example_path(
            "/x/blob/main/y/owner/repo/blob/main/examples/a.rs",
            "owner",
            "repo",
            "main"
        ),
        Some("examples/a.rs".to_string())
    );
}

#[test]
fn example_paths_are_listed_once_in_order() {
    let links = vec![
        Some("/owner/repo/blob/main/examples/b.rs".to_string()),
        None,
        Some("/owner/repo/blob/main/examples/a.rs".to_string()),
        Some("/elsewhere".to_string()),
        Some("https://github.com/owner/repo/blob/main/examples/b.rs".to_string()),
    ];
    assert_eq!(
        list_example_paths(&links, "owner", "repo", "main"),
        vec!["examples/b.rs", "examples/a.rs"]
    );
}

#[test]
fn listing_of_an_ordinary_repository_is_read() {
    let links = vec![
        Some("/o/r/blob/main/examples/a.rs".to_string()),
        Some("/o/r/blob/main/examples/b.rs".to_string()),
        Some("/o/r/blob/main/examples/a.rs".to_string()),
        Some("/o/r/blob/main/src/lib.rs".to_string()),
    ];
    assert_eq!(list_example_paths(&links, "o", "r", "main"), vec!["examples/a.rs", "examples/b.rs"]);
    assert_eq!(list_example_paths(&Vec::new(), "o", "r", "main"), Vec::<String>::new());
}

#[test]
fn repository_with_declared_branch() {
    let mut repo = Repo::new("owner", "repo", 2);
    let site = |url: &str| -> Outcome {
        match url {
            "https://github.com/owner/repo" => Outcome::Body("<x data-default-branch=\"trunk\">".to_string()),
            "https://raw.githubusercontent.com/owner/repo/trunk/readme.md" => Outcome::Body("# readme".to_string()),
            "https://github.com/owner/repo/tree/trunk/examples" => Outcome::Body(
                "<a href=\"/owner/repo/blob/trunk/examples/one.rs\">1</a><a href=\"/owner/repo/blob/trunk/examples/two.rs\">2</a><a href=\"/owner/repo/tree/trunk/examples/sub\">sub</a><a href=\"/owner/repo/blob/trunk/examples/three.rs\">3</a><a href=\"/owner/repo/blob/trunk/README.md\">r</a>".to_string(),
            ),
            "https://raw.githubusercontent.com/owner/repo/trunk/examples/one.rs" => refused(),
            "https://raw.githubusercontent.com/owner/repo/trunk/examples/two.rs" => Outcome::Body("fn two() {}".to_string()),
            "https://raw.githubusercontent.com/owner/repo/trunk/examples/three.rs" => Outcome::Body("fn three() {}".to_string()),
            _ => refused(),
        }
    };
    let asked = run(&mut repo, &site);
    let urls: Vec<(&str, u64)> = asked.iter().map(|r| (r.url.as_str(), r.timeout_secs)).collect();
    assert_eq!(
        urls,
        vec![
            ("https://github.com/owner/repo", 10),
            ("https://raw.githubusercontent.com/owner/repo/trunk/README.md", 10),
            ("https://raw.githubusercontent.com/owner/repo/trunk/readme.md", 10),
            ("https://github.com/owner/repo/tree/trunk/examples", 10),
            ("https://raw.githubusercontent.com/owner/repo/trunk/examples/one.rs", 10),
            ("https://raw.githubusercontent.com/owner/repo/trunk/examples/two.rs", 10),
            ("https://raw.githubusercontent.com/owner/repo/trunk/examples/three.rs", 10),
        ]
    );
    let (readme, examples, errors) = repo.output();
    assert_eq!(readme, Some("# readme".to_string()));
    assert_eq!(
        examples,
        vec![
            ("examples/two.rs".to_string(), "fn two() {}".to_string()),
            ("examples/three.rs".to_string(), "fn three() {}".to_string()),
        ]
    );
    assert_eq!(errors, Vec::<String>::new());
}

#[test]
fn repository_branch_is_probed_then_defaulted() {
    let mut repo = Repo::new("owner", "repo", 1);
    let site = |url: &str| -> Outcome {
        match url {
            "https://raw.githubusercontent.com/owner/repo/master/README.md" => Outcome::Unreadable("cut".to_string()),
            _ => refused(),
        }
    };
    let asked = run(&mut repo, &site);
    let urls: Vec<(&str, u64)> = asked.iter().map(|r| (r.url.as_str(), r.timeout_secs)).collect();
    assert_eq!(
        urls,
        vec![
            ("https://github.com/owner/repo", 10),
            ("https://raw.githubusercontent.com/owner/repo/main/README.md", 8),
            ("https://raw.githubusercontent.com/owner/repo/master/README.md", 8),
            ("https://raw.githubusercontent.com/owner/repo/master/README.md", 10),
            ("https://raw.githubusercontent.com/owner/repo/master/readme.md", 10),
            ("https://github.com/owner/repo/tree/master/examples", 10),
            ("https://raw.githubusercontent.com/owner/repo/master/examples/main.rs", 10),
            ("https://raw.githubusercontent.com/owner/repo/master/examples/05_astroblasto.rs", 10),
            ("https://raw.githubusercontent.com/owner/repo/master/examples/simple.rs", 10),
            ("https://raw.githubusercontent.com/owner/repo/master/examples/brick_breaker.rs", 10),
        ]
    );
    let (readme, examples, errors) = repo.output();
    assert_eq!(readme, None);
    assert_eq!(examples, Vec::<(String, String)>::new());
    assert_eq!(
        errors,
        vec!["Could not fetch README from GitHub for owner/repo on branch 'master'".to_string()]
    );
}

#[test]
fn repository_without_branch_uses_main() {
    let mut repo = Repo::new("owner", "repo", 0);
    let asked = run(&mut repo, &|_| Outcome::TimedOut);
    let urls: Vec<&str> = asked.iter().map(|r| r.url.as_str()).collect();
    assert_eq!(
        urls,
        vec![
            "https://github.com/owner/repo",
            "https://raw.githubusercontent.com/owner/repo/main/README.md",
            "https://raw.githubusercontent.com/owner/repo/master/README.md",
            "https://raw.githubusercontent.com/owner/repo/main/README.md",
            "https://raw.githubusercontent.com/owner/repo/main/readme.md",
            "https://github.com/owner/repo/tree/main/examples",
        ]
    );
    let (_, examples, errors) = repo.output();
    assert_eq!(examples, Vec::<(String, String)>::new());
    assert_eq!(
        errors,
        vec!["Could not fetch README from GitHub for owner/repo on branch 'main'".to_string()]
    );
}

#[test]
fn example_files_stop_at_budget() {
    let mut repo = Repo::new("owner", "repo", 2);
    let site = |url: &str| -> Outcome {
        if url.contains("/examples/") {
            Outcome::Body("fn main() {}".to_string())
        } else {
            refused()
        }
    };
    run(&mut repo, &site);
    let (_, examples, _) = repo.output();
    assert_eq!(
        examples,
        vec![
            ("examples/main.rs".to_string(), "fn main() {}".to_string()),
            ("examples/05_astroblasto.rs".to_string(), "fn main() {}".to_string()),
        ]
    );
}

#[test]
fn unavailable_listing_falls_back_to_usual_examples() {
    let mut repo = Repo::new("owner", "repo", 4);
    let site = |url: &str| -> Outcome {
        match url {
            "https://github.com/owner/repo" => Outcome::Body("<x data-default-branch=\"main\">".to_string()),
            "https://raw.githubusercontent.com/owner/repo/main/examples/simple.rs" => Outcome::Body("fn simple() {}".to_string()),
            _ => refused(),
        }
    };
    run(&mut repo, &site);
    let (_, examples, _) = repo.output();
    assert_eq!(examples, vec![("examples/simple.rs".to_string(), "fn simple() {}".to_string())]);
}

#[test]
fn discovered_examples_replace_the_usual_ones() {
    let mut repo = Repo::new("o", "r", 5);
    let site = |url: &str| -> Outcome {
        match url {
            "https://github.com/o/r" => Outcome::Body("<x data-default-branch=\"main\">".to_string()),
            "https://github.com/o/r/tree/main/examples" => Outcome::Body(
                "<a href=\"/o/r/blob/main/examples/a.rs\">a</a><a href=\"/o/r/blob/main/examples/a.rs\">a</a>".to_string(),
            ),
            u if u.starts_with("https://raw.githubusercontent.com/o/r/main/examples/") => {
                Outcome::Body(u.rsplit('/').next().unwrap().to_string())
            }
            _ => refused(),
        }
    };
    let asked = run(&mut repo, &site);
    let (_, examples, _) = repo.output();
    assert_eq!(examples, vec![("examples/a.rs".to_string(), "a.rs".to_string())]);
    assert_eq!(asked.last().unwrap().url, "https://raw.githubusercontent.com/o/r/main/examples/a.rs");
}
