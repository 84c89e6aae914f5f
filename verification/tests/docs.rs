use std::collections::VecDeque;

use crate_docs::docs::{
    candidate_urls, enqueue_links, normalize_docs_href, queue_holds, Crawl, PAGE_TIMEOUT_SECS,
};
use crate_docs::fetch::{Outcome, Request};

fn page(links: &[&str]) -> String {
    let mut html = String::from("<html><body>");
    for l in links {
        html.push_str("<a href=\"");
        html.push_str(l);
        html.push_str("\">link</a>");
    }
    html.push_str("</body></html>");
    html
}

fn refused() -> Outcome {
    Outcome::Refused("404 Not Found".to_string())
}

fn run(crawl: &mut Crawl, site: &dyn Fn(&str) -> Outcome) -> Vec<Request> {
    let mut asked = Vec::new();
    while let Some(req) = crawl.poll() {
        let outcome = site(&req.url);
        asked.push(req);
        crawl.deliver(outcome);
        assert!(asked.len() < 1000);
    }
    asked
}

#[test]
fn href_loses_relative_markers_fragment_and_leading_slashes() {
    assert_eq!(normalize_docs_href("../../alpha/struct.Foo.html#method.new"), "alpha/struct.Foo.html");
    assert_eq!(normalize_docs_href("./index.html"), "index.html");
    assert_eq!(normalize_docs_href("//alpha/"), "alpha/");
    assert_eq!(normalize_docs_href("#top"), "");
    assert_eq!(normalize_docs_href(".././/x#y#z"), "x");
    assert_eq!(normalize_docs_href("a/../b"), "a/../b");
    assert_eq!(normalize_docs_href(""), "");
    assert_eq!(normalize_docs_href(".."), "..");
}

#[test]
fn page_addresses_for_root_and_path() {
    assert_eq!(
        candidate_urls("alpha", "1.0.0", "  "),
        vec!["https://docs.rs/alpha/1.0.0/", "https://docs.rs/crate/alpha/1.0.0/"]
    );
    assert_eq!(
        candidate_urls("alpha", "1.0.0", " /alpha/index.html "),
        vec![
            "https://docs.rs/alpha/1.0.0//alpha/index.html",
            "https://docs.rs/crate/alpha/1.0.0//alpha/index.html",
            "https://docs.rs/alpha/1.0.0/alpha/index.html",
        ]
    );
}

#[test]
fn crawl_starts_with_root_then_index_path() {
    let mut crawl = Crawl::new("alpha", "1.0.0", 5);
    let asked = run(&mut crawl, &|_| refused());
    let urls: Vec<&str> = asked.iter().map(|r| r.url.as_str()).collect();
    assert_eq!(
        urls,
        vec![
            "https://docs.rs/alpha/1.0.0/",
            "https://docs.rs/crate/alpha/1.0.0/",
            "https://docs.rs/alpha/1.0.0/alpha/",
            "https://docs.rs/crate/alpha/1.0.0/alpha/",
            "https://docs.rs/alpha/1.0.0/alpha/",
        ]
    );
    assert!(asked.iter().all(|r| r.timeout_secs == PAGE_TIMEOUT_SECS));
    assert_eq!(crawl.pages_count(), 0);
    let (pages, count, visited) = crawl.into_output();
    assert_eq!(pages, Vec::<String>::new());
    assert_eq!(count, 0);
    assert_eq!(visited, vec!["", "alpha/"]);
}

#[test]
fn crawl_never_fetches_a_path_twice() {
    let mut crawl = Crawl::new("alpha", "1.0.0", 50);
    let site = |url: &str| -> Outcome {
        if url.starts_with("https://docs.rs/alpha/1.0.0/") {
            Outcome::Body(page(&["alpha/a.html", "../alpha/b.html", "alpha/a.html#x", "alpha/", "./alpha/b.html"]))
        } else {
            refused()
        }
    };
    let asked = run(&mut crawl, &site);
    let urls: Vec<&str> = asked.iter().map(|r| r.url.as_str()).collect();
    assert_eq!(
        urls,
        vec![
            "https://docs.rs/alpha/1.0.0/",
            "https://docs.rs/alpha/1.0.0/alpha/",
            "https://docs.rs/alpha/1.0.0/alpha/a.html",
            "https://docs.rs/alpha/1.0.0/alpha/b.html",
        ]
    );
    let (pages, count, visited) = crawl.into_output();
    assert_eq!(count, 4);
    assert_eq!(pages.len(), 4);
    assert!(pages.iter().all(|p| p.starts_with("<html>")));
    assert_eq!(visited, vec!["", "alpha/", "alpha/a.html", "alpha/b.html"]);
}

#[test]
fn crawl_stops_at_page_budget() {
    let mut crawl = Crawl::new("alpha", "1.0.0", 3);
    let site = |_: &str| -> Outcome {
        Outcome::Body(page(&["alpha/1.html", "alpha/2.html", "alpha/3.html", "alpha/4.html", "alpha/5.html"]))
    };
    let asked = run(&mut crawl, &site);
    assert_eq!(asked.len(), 3);
    assert_eq!(crawl.pages_count(), 3);
    let (pages, count, visited) = crawl.into_output();
    assert_eq!(pages.len(), 3);
    assert_eq!(count, 3);
    assert_eq!(visited, vec!["", "alpha/", "alpha/1.html"]);
}

#[test]
fn crawl_with_no_budget_asks_nothing() {
    let mut crawl = Crawl::new("alpha", "1.0.0", 0);
    assert!(crawl.poll().is_none());
    assert_eq!(crawl.pages_count(), 0);
}

#[test]
fn crawl_follows_relevant_links_only() {
    let mut crawl = Crawl::new("alpha", "1.0.0", 50);
    let site = |url: &str| -> Outcome {
        if url == "https://docs.rs/alpha/1.0.0/" {
            Outcome::Body(page(&[
                "https://example.org/about",
                "crate/other",
                "x/struct.Y",
                "x/fn.y",
                "x/module",
                "page.html",
                "about",
                "#frag",
                "src/alpha/lib.rs",
            ]))
        } else {
            refused()
        }
    };
    run(&mut crawl, &site);
    let (_, count, visited) = crawl.into_output();
    assert_eq!(count, 1);
    assert_eq!(
        visited,
        vec!["", "alpha/", "crate/other", "x/struct.Y", "x/fn.y", "x/module", "page.html", "src/alpha/lib.rs"]
    );
}

#[test]
fn crawl_takes_first_address_that_answers() {
    let mut crawl = Crawl::new("alpha", "1.0.0", 1);
    let site = |url: &str| -> Outcome {
        if url == "https://docs.rs/crate/alpha/1.0.0/" {
            Outcome::Body("<p>index</p>".to_string())
        } else {
            Outcome::TimedOut
        }
    };
    let asked = run(&mut crawl, &site);
    assert_eq!(asked.len(), 2);
    let (pages, count, visited) = crawl.into_output();
    assert_eq!(pages, vec!["<p>index</p>".to_string()]);
    assert_eq!(count, 1);
    assert_eq!(visited, vec![""]);
}

#[test]
fn crawl_keeps_pages_in_order() {
    let mut crawl = Crawl::new("alpha", "1.0.0", 2);
    let site = |url: &str| -> Outcome {
        if url == "https://docs.rs/alpha/1.0.0/" {
            Outcome::Body("<p>one</p>".to_string())
        } else if url == "https://docs.rs/alpha/1.0.0/alpha/" {
            Outcome::Body("<p>two</p>".to_string())
        } else {
            refused()
        }
    };
    run(&mut crawl, &site);
    let (pages, count, _) = crawl.into_output();
    assert_eq!(pages, vec!["<p>one</p>".to_string(), "<p>two</p>".to_string()]);
    assert_eq!(count, 2);
}

#[test]
fn unreadable_answer_is_no_page() {
    let mut crawl = Crawl::new("alpha", "1.0.0", 2);
    let asked = run(&mut crawl, &|_| Outcome::Unreadable("broken".to_string()));
    assert_eq!(asked.len(), 5);
    assert_eq!(crawl.pages_count(), 0);
}

#[test]
fn delivering_without_request_changes_nothing() {
    let mut crawl = Crawl::new("alpha", "1.0.0", 2);
    crawl.deliver(Outcome::Body("<a href=\"alpha/x\">x</a>".to_string()));
    assert_eq!(crawl.pages_count(), 0);
    let req = crawl.poll().unwrap();
    assert_eq!(req.url, "https://docs.rs/alpha/1.0.0/");
}

#[test]
fn links_join_the_queue_once() {
    let links = vec![
        Some("alpha/a.html".to_string()),
        None,
        Some("../alpha/a.html#top".to_string()),
        Some("alpha/seen.html".to_string()),
        Some("alpha/queued.html".to_string()),
        Some("elsewhere".to_string()),
        Some("#only-fragment".to_string()),
        Some("b.html".to_string()),
    ];
    let visited = vec!["alpha/seen.html".to_string()];
    let mut queue = VecDeque::from(vec!["alpha/queued.html".to_string()]);
    enqueue_links(&links, "alpha", &visited, &mut queue);
    assert_eq!(queue, vec!["alpha/queued.html", "alpha/a.html", "b.html"]);
    assert!(queue_holds(&queue, &"b.html".to_string()));
    assert!(!queue_holds(&queue, &"alpha/seen.html".to_string()));
}

#[test]
fn empty_package_name_makes_every_link_relevant() {
    let links = vec![Some("anything".to_string())];
    let mut queue = VecDeque::new();
    enqueue_links(&links, "", &Vec::new(), &mut queue);
    assert_eq!(queue, vec!["anything"]);
}

#[test]
fn crawl_with_more_paths_than_budget_stores_exactly_the_budget() {
    for budget in [1usize, 2, 5, 7] {
        let mut crawl = Crawl::new("alpha", "1.0.0", budget);
        let site = |url: &str| -> Outcome {
            let tail = url.rsplit('/').next().unwrap_or("");
            let n: usize = tail.trim_start_matches('p').trim_end_matches(".html").parse().unwrap_or(0);
            Outcome::Body(page(&[
                &format!("alpha/p{}.html", 2 * n + 1),
                &format!("alpha/p{}.html", 2 * n + 2),
            ]))
        };
        let asked = run(&mut crawl, &site);
        assert_eq!(asked.len(), budget);
        let mut urls: Vec<&str> = asked.iter().map(|r| r.url.as_str()).collect();
        urls.sort();
        urls.dedup();
        assert_eq!(urls.len(), budget);
        assert!(crawl.poll().is_none());
        let (pages, count, visited) = crawl.into_output();
        assert_eq!(pages.len(), budget);
        assert_eq!(count, budget);
        assert_eq!(visited.len(), budget);
    }
}

#[test]
fn crawl_with_fewer_paths_than_budget_stores_them_all() {
    let mut crawl = Crawl::new("alpha", "1.0.0", 10);
    let site = |url: &str| -> Outcome {
        if url == "https://docs.rs/alpha/1.0.0/" {
            Outcome::Body(page(&["alpha/a.html", "alpha/b.html"]))
        } else {
            Outcome::Body(page(&["alpha/a.html", "../alpha/"]))
        }
    };
    let asked = run(&mut crawl, &site);
    assert_eq!(asked.len(), 4);
    let (pages, count, visited) = crawl.into_output();
    assert_eq!(pages.len(), 4);
    assert_eq!(count, 4);
    assert_eq!(visited, vec!["", "alpha/", "alpha/a.html", "alpha/b.html"]);
}
