//! The crawl of a package's documentation site: which pages are asked for,
//! in which order, and which of the links of a page are followed.

use std::collections::VecDeque;
use vstd::prelude::*;

use crate::fetch::{body_of, request, request_view, Outcome, Request, RequestView};
use crate::html::{links_of, optional_texts, page_links};
use crate::text::{
    ends_with, find_sub, first_in, has_sub, holds_text, scan, slice_of, stands_at, starts_with,
    strip_leading, texts, to_chars, to_text, trim, trim_bounds, CharClass,
};

verus! {

/// `s` without the `../` and `./` markers that it starts with.
pub open spec fn strip_relative(s: Seq<char>) -> Seq<char>
    decreases s.len(),
{
    if starts_with(s, seq!['.', '.', '/']) {
        strip_relative(s.skip(3))
    } else if starts_with(s, seq!['.', '/']) {
        strip_relative(s.skip(2))
    } else {
        s
    }
}

/// `s` up to its first `#`.
pub open spec fn cut_fragment(s: Seq<char>) -> Seq<char> {
    s.take(first_in(s, CharClass::Only('#'), 0))
}

/// The path that a link target stands for: without the relative markers at
/// its start, without its fragment, and without the slashes that then lead
/// it.
pub open spec fn normalized_href(href: Seq<char>) -> Seq<char> {
    strip_leading(cut_fragment(strip_relative(href)), '/')
}

/// Whether a path looks like a page of the package's documentation.
pub open spec fn is_relevant(path: Seq<char>, crate_name: Seq<char>) -> bool {
    has_sub(path, crate_name) || starts_with(path, "crate"@) || has_sub(path, "struct"@)
        || has_sub(path, "fn"@) || has_sub(path, "module"@) || ends_with(path, ".html"@)
}

/// The addresses that are tried for a path, in order.
pub open spec fn page_urls(crate_name: Seq<char>, version: Seq<char>, path: Seq<char>) -> Seq<
    Seq<char>,
> {
    let p = trim(path);
    let docs = "https://docs.rs/"@ + crate_name + "/"@ + version + "/"@;
    let index = "https://docs.rs/crate/"@ + crate_name + "/"@ + version + "/"@;
    if p.len() == 0 {
        seq![docs, index]
    } else {
        seq![docs + p, index + p, docs + strip_leading(p, '/')]
    }
}

/// How long a page request may take, in seconds.
pub const PAGE_TIMEOUT_SECS: u64 = 12;

/// The queue after the link targets of a page were looked through: a target
/// joins the queue where its path is not empty, is relevant, was not visited
/// and is not queued yet.
pub open spec fn enqueued(
    hrefs: Seq<Option<Seq<char>>>,
    crate_name: Seq<char>,
    visited: Seq<Seq<char>>,
    queue: Seq<Seq<char>>,
) -> Seq<Seq<char>>
    decreases hrefs.len(),
{
    if hrefs.len() == 0 {
        queue
    } else {
        let q = enqueued(hrefs.drop_last(), crate_name, visited, queue);
        match hrefs.last() {
            Some(h) => {
                let path = normalized_href(h);
                if path.len() > 0 && is_relevant(path, crate_name) && !visited.contains(path)
                    && !q.contains(path) {
                    q.push(path)
                } else {
                    q
                }
            },
            None => q,
        }
    }
}

/// The queue without the visited paths that it starts with.
pub open spec fn pending(queue: Seq<Seq<char>>, visited: Seq<Seq<char>>) -> Seq<Seq<char>>
    decreases queue.len(),
{
    if queue.len() > 0 && visited.contains(queue[0]) {
        pending(queue.drop_first(), visited)
    } else {
        queue
    }
}

/// The state of a crawl.
pub struct CrawlView {
    pub crate_name: Seq<char>,
    pub version: Seq<char>,
    /// How many pages may be stored.
    pub max_pages: nat,
    /// The paths that wait, first in first out.
    pub queue: Seq<Seq<char>>,
    /// The paths that were stored or given up.
    pub visited: Seq<Seq<char>>,
    /// The bodies of the pages that were stored, in order.
    pub pages: Seq<Seq<char>>,
    /// The path that is being fetched, with the index of the address that is
    /// tried for it.
    pub fetching: Option<(Seq<char>, nat)>,
}

impl CrawlView {
    /// A crawl starts with the root path and the package's index path in
    /// its queue.
    pub open spec fn initial(
        crate_name: Seq<char>,
        version: Seq<char>,
        max_pages: nat,
    ) -> CrawlView {
        CrawlView {
            crate_name,
            version,
            max_pages,
            queue: seq![Seq::empty(), crate_name + "/"@],
            visited: Seq::empty(),
            pages: Seq::empty(),
            fetching: None,
        }
    }

    /// What holds of every state that a crawl reaches.
    pub open spec fn wf(self) -> bool {
        &&& self.visited.no_duplicates()
        &&& self.queue.no_duplicates()
        &&& forall|i: int|
            0 <= i < self.queue.len() ==> !self.visited.contains(#[trigger] self.queue[i])
        &&& self.pages.len() <= self.max_pages
        &&& self.pages.len() <= self.visited.len()
        &&& match self.fetching {
            Some((path, k)) => {
                &&& !self.visited.contains(path)
                &&& !self.queue.contains(path)
                &&& k < page_urls(self.crate_name, self.version, path).len()
                &&& self.pages.len() < self.max_pages
            },
            None => true,
        }
    }

    /// The state after the crawl was asked for its next request: a path that
    /// is being fetched stays; else the first path of the queue that was not
    /// visited is taken, unless the page budget is used up.
    pub open spec fn polled(self) -> CrawlView {
        if self.fetching is Some {
            self
        } else {
            let q = pending(self.queue, self.visited);
            if q.len() == 0 || self.pages.len() >= self.max_pages {
                CrawlView { queue: q, ..self }
            } else {
                CrawlView { queue: q.drop_first(), fetching: Some((q[0], 0nat)), ..self }
            }
        }
    }

    /// The request that is due: the address tried next for the path that is
    /// being fetched; none where no path is.
    pub open spec fn due(self) -> Option<RequestView> {
        match self.fetching {
            Some((path, k)) => Some(
                RequestView {
                    url: page_urls(self.crate_name, self.version, path)[k as int],
                    timeout_secs: PAGE_TIMEOUT_SECS,
                },
            ),
            None => None,
        }
    }

    /// The state after the outcome of the request that was due: a body is
    /// stored, its path is visited and its links are looked through; without
    /// a body the next address is tried, and after the last one the path is
    /// visited all the same.
    pub open spec fn delivered(self, body: Option<Seq<char>>) -> CrawlView {
        match self.fetching {
            None => self,
            Some((path, k)) => match body {
                Some(html) => {
                    let visited = self.visited.push(path);
                    CrawlView {
                        pages: self.pages.push(html),
                        visited,
                        queue: enqueued(page_links(html), self.crate_name, visited, self.queue),
                        fetching: None,
                        ..self
                    }
                },
                None => if k + 1 < page_urls(self.crate_name, self.version, path).len() {
                    CrawlView { fetching: Some((path, k + 1)), ..self }
                } else {
                    CrawlView { visited: self.visited.push(path), fetching: None, ..self }
                },
            },
        }
    }

    /// Whether the crawl is over: no path is being fetched, and none will be.
    pub open spec fn over(self) -> bool {
        self.polled().fetching is None
    }
}

proof fn lemma_pending(queue: Seq<Seq<char>>, visited: Seq<Seq<char>>)
    ensures
        pending(queue, visited).len() <= queue.len(),
        pending(queue, visited) == queue.skip(queue.len() - pending(queue, visited).len()),
        pending(queue, visited).len() > 0 ==> !visited.contains(pending(queue, visited)[0]),
        forall|j: int|
            0 <= j < queue.len() - pending(queue, visited).len() ==> visited.contains(
                #[trigger] queue[j],
            ),
    decreases queue.len(),
{
    if queue.len() > 0 && visited.contains(queue[0]) {
        lemma_pending(queue.drop_first(), visited);
        let rest = queue.drop_first();
        let p = pending(rest, visited);
        assert(rest.skip(rest.len() - p.len()) =~= queue.skip(queue.len() - p.len()));
        assert forall|j: int| 0 <= j < queue.len() - p.len() implies visited.contains(
            #[trigger] queue[j],
        ) by {
            if j > 0 {
                assert(queue[j] == rest[j - 1]);
            }
        }
    } else {
        assert(queue.skip(0) =~= queue);
    }
}

proof fn lemma_enqueued(
    hrefs: Seq<Option<Seq<char>>>,
    crate_name: Seq<char>,
    visited: Seq<Seq<char>>,
    queue: Seq<Seq<char>>,
)
    requires
        queue.no_duplicates(),
        forall|i: int| 0 <= i < queue.len() ==> !visited.contains(#[trigger] queue[i]),
    ensures
        enqueued(hrefs, crate_name, visited, queue).no_duplicates(),
        forall|i: int|
            0 <= i < enqueued(hrefs, crate_name, visited, queue).len() ==> !visited.contains(
                #[trigger] enqueued(hrefs, crate_name, visited, queue)[i],
            ),
    decreases hrefs.len(),
{
    if hrefs.len() > 0 {
        lemma_enqueued(hrefs.drop_last(), crate_name, visited, queue);
    }
}

/// A crawl starts in a well-formed state.
pub proof fn law_crawl_starts_well_formed(crate_name: Seq<char>, version: Seq<char>, max: nat)
    ensures
        CrawlView::initial(crate_name, version, max).wf(),
{
    let c = CrawlView::initial(crate_name, version, max);
    assert(c.queue[1].len() > 0) by {
        assert((crate_name + "/"@).len() == crate_name.len() + "/"@.len());
        reveal_strlit("/");
    }
    assert(c.queue[0].len() == 0);
}

/// A path that was visited is never fetched: asking for the next request
/// keeps the state well formed, and in a well-formed state the path that is
/// being fetched was not visited; nor is a page asked for once the budget is
/// used up.
pub proof fn law_visited_paths_are_not_fetched(s: CrawlView)
    requires
        s.wf(),
    ensures
        s.polled().wf(),
        s.polled().visited == s.visited,
        s.polled().pages == s.pages,
        s.polled().fetching matches Some((path, k)) ==> !s.visited.contains(path)
            && s.pages.len() < s.max_pages,
{
    if s.fetching is None {
        lemma_pending(s.queue, s.visited);
        let q = pending(s.queue, s.visited);
        let d = s.queue.len() - q.len();
        assert forall|i: int| 0 <= i < q.len() implies !s.visited.contains(#[trigger] q[i]) by {
            assert(q[i] == s.queue[d + i]);
        }
        assert(q.no_duplicates()) by {
            assert forall|i: int, j: int| 0 <= i < q.len() && 0 <= j < q.len() && i != j implies q[i]
                != q[j] by {
                assert(q[i] == s.queue[d + i]);
                assert(q[j] == s.queue[d + j]);
            }
        }
        if q.len() > 0 && s.pages.len() < s.max_pages {
            let rest = q.drop_first();
            assert forall|i: int| 0 <= i < rest.len() implies !s.visited.contains(
                #[trigger] rest[i],
            ) by {
                assert(rest[i] == q[i + 1]);
            }
            assert(rest.no_duplicates()) by {
                assert forall|i: int, j: int|
                    0 <= i < rest.len() && 0 <= j < rest.len() && i != j implies rest[i]
                    != rest[j] by {
                    assert(rest[i] == q[i + 1]);
                    assert(rest[j] == q[j + 1]);
                }
            }
            assert(!rest.contains(q[0])) by {
                if rest.contains(q[0]) {
                    let j = choose|j: int| 0 <= j < rest.len() && rest[j] == q[0];
                    assert(rest[j] == q[j + 1]);
                }
            }
            assert(page_urls(s.crate_name, s.version, q[0]).len() >= 2);
        }
    }
}

/// A crawl never stores more pages than its budget, never forgets a visited
/// path, and a path that it is done with is visited: the outcome of a
/// request keeps the state well formed.
pub proof fn law_outcome_keeps_crawl_in_bounds(s: CrawlView, body: Option<Seq<char>>)
    requires
        s.wf(),
    ensures
        s.delivered(body).wf(),
        s.delivered(body).pages.len() <= s.max_pages,
        s.delivered(body).pages.len() <= s.pages.len() + 1,
        forall|p: Seq<char>| s.visited.contains(p) ==> s.delivered(body).visited.contains(p),
        s.fetching matches Some((path, k)) ==> (s.delivered(body).fetching is None
            ==> s.delivered(body).visited.contains(path)),
        s.fetching matches Some((path, k)) ==> (s.delivered(body).fetching matches Some((next, j))
            ==> next == path && j == k + 1),
{
    match s.fetching {
        None => {},
        Some((path, k)) => {
            let visited = s.visited.push(path);
            assert(visited.no_duplicates()) by {
                assert forall|i: int, j: int|
                    0 <= i < visited.len() && 0 <= j < visited.len() && i != j implies visited[i]
                    != visited[j] by {
                    if i < s.visited.len() {
                        assert(s.visited.contains(visited[i]));
                    }
                    if j < s.visited.len() {
                        assert(s.visited.contains(visited[j]));
                    }
                }
            }
            assert forall|p: Seq<char>| s.visited.contains(p) implies visited.contains(p) by {
                let i = choose|i: int| 0 <= i < s.visited.len() && s.visited[i] == p;
                assert(visited[i] == p);
            }
            assert(visited.contains(path)) by {
                assert(visited[visited.len() - 1] == path);
            }
            assert forall|i: int| 0 <= i < s.queue.len() implies !visited.contains(
                #[trigger] s.queue[i],
            ) by {
                if visited.contains(s.queue[i]) {
                    let j = choose|j: int| 0 <= j < visited.len() && visited[j] == s.queue[i];
                    if j < s.visited.len() {
                        assert(s.visited.contains(s.queue[i]));
                    } else {
                        assert(s.queue.contains(path));
                    }
                }
            }
            match body {
                Some(html) => {
                    lemma_enqueued(page_links(html), s.crate_name, visited, s.queue);
                },
                None => {},
            }
        },
    }
}

/// The path that is taken up when the crawl is asked for its next request:
/// none where a path is being fetched already, or where the crawl is over.
pub open spec fn taken_up(s: CrawlView) -> Option<Seq<char>> {
    match s.polled().fetching {
        Some((path, k)) => if s.fetching is None {
            Some(path)
        } else {
            None
        },
        None => None,
    }
}

/// The state after the crawl was asked for its next request and handed the
/// outcome.
pub open spec fn stepped(s: CrawlView, body: Option<Seq<char>>) -> CrawlView {
    s.polled().delivered(body)
}

/// The paths that are taken up in the course of these rounds, in order.
pub open spec fn paths_taken_up(s: CrawlView, bodies: Seq<Option<Seq<char>>>) -> Seq<Seq<char>>
    decreases bodies.len(),
{
    if bodies.len() == 0 {
        Seq::empty()
    } else {
        let rest = paths_taken_up(stepped(s, bodies[0]), bodies.drop_first());
        match taken_up(s) {
            Some(path) => seq![path] + rest,
            None => rest,
        }
    }
}

/// Within one crawl no path is taken up twice, whatever the outcomes of the
/// requests: the paths taken up are pairwise different, none of them was
/// visited before, and none is the path that was being fetched.
pub proof fn law_no_path_fetched_twice(s: CrawlView, bodies: Seq<Option<Seq<char>>>)
    requires
        s.wf(),
    ensures
        paths_taken_up(s, bodies).no_duplicates(),
        forall|i: int|
            0 <= i < paths_taken_up(s, bodies).len() ==> !s.visited.contains(
                #[trigger] paths_taken_up(s, bodies)[i],
            ),
        s.fetching matches Some((path, k)) ==> !paths_taken_up(s, bodies).contains(path),
    decreases bodies.len(),
{
    if bodies.len() > 0 {
        let polled = s.polled();
        let next = stepped(s, bodies[0]);
        let rest = paths_taken_up(next, bodies.drop_first());
        law_visited_paths_are_not_fetched(s);
        law_outcome_keeps_crawl_in_bounds(polled, bodies[0]);
        law_no_path_fetched_twice(next, bodies.drop_first());
        let all = paths_taken_up(s, bodies);
        assert forall|i: int| 0 <= i < rest.len() implies !s.visited.contains(
            #[trigger] rest[i],
        ) by {
            if s.visited.contains(rest[i]) {
                assert(polled.visited.contains(rest[i]));
                assert(next.visited.contains(rest[i]));
            }
        }
        match polled.fetching {
            Some((path, k)) => {
                assert(!rest.contains(path)) by {
                    if rest.contains(path) {
                        let j = choose|j: int| 0 <= j < rest.len() && rest[j] == path;
                        if next.fetching is None {
                            assert(next.visited.contains(path));
                        }
                    }
                }
                if s.fetching is None {
                    assert(all =~= seq![path] + rest);
                    assert forall|i: int, j: int|
                        0 <= i < all.len() && 0 <= j < all.len() && i != j implies all[i]
                        != all[j] by {
                        if i > 0 {
                            assert(all[i] == rest[i - 1]);
                        }
                        if j > 0 {
                            assert(all[j] == rest[j - 1]);
                        }
                        if i == 0 {
                            assert(rest.contains(rest[j - 1]));
                        }
                        if j == 0 {
                            assert(rest.contains(rest[i - 1]));
                        }
                    }
                    assert forall|i: int| 0 <= i < all.len() implies !s.visited.contains(
                        #[trigger] all[i],
                    ) by {
                        if i > 0 {
                            assert(all[i] == rest[i - 1]);
                        }
                    }
                } else {
                    assert(all =~= rest);
                }
            },
            None => {
                assert(all =~= rest);
            },
        }
    }
}

/// How many pages a crawl may still store.
pub open spec fn budget_left(s: CrawlView) -> int {
    s.max_pages - s.pages.len()
}

/// A bound on the requests that a crawl makes before it stores a page or
/// runs out of paths: four for each queued path, and the addresses that are
/// left for the path that is being fetched.
pub open spec fn effort_left(s: CrawlView) -> int {
    4 * s.queue.len() + match s.fetching {
        Some((path, k)) => page_urls(s.crate_name, s.version, path).len() - k,
        None => 0,
    }
}

/// The state after the first `n` rounds of request and outcome, the
/// outcomes taken from `outcomes` in order.
pub open spec fn run_rounds(
    s: CrawlView,
    outcomes: spec_fn(nat) -> Option<Seq<char>>,
    n: nat,
) -> CrawlView
    decreases n,
{
    if n == 0 {
        s
    } else {
        stepped(run_rounds(s, outcomes, (n - 1) as nat), outcomes((n - 1) as nat))
    }
}

/// A round in which a request is due brings the crawl nearer to its end: it
/// stores a page, or it uses up some of the effort that is left.
pub proof fn law_round_brings_crawl_nearer_end(s: CrawlView, body: Option<Seq<char>>)
    requires
        s.wf(),
        !s.over(),
    ensures
        0 <= budget_left(stepped(s, body)) <= budget_left(s),
        0 <= effort_left(stepped(s, body)),
        budget_left(stepped(s, body)) < budget_left(s) || effort_left(stepped(s, body))
            < effort_left(s),
{
    law_visited_paths_are_not_fetched(s);
    law_outcome_keeps_crawl_in_bounds(s.polled(), body);
    if s.fetching is None {
        lemma_pending(s.queue, s.visited);
    }
}

/// A crawl stops only when its budget is used up or no path is left: where
/// no request is due any more, as many pages are stored as the budget
/// allows, or every queued path was visited.
pub proof fn law_crawl_stops_only_when_done(s: CrawlView)
    requires
        s.wf(),
        s.over(),
    ensures
        s.pages.len() == s.max_pages || pending(s.queue, s.visited).len() == 0,
{
}

/// However a crawl goes, it stores no more pages than its budget allows.
pub proof fn law_pages_within_budget(
    s: CrawlView,
    outcomes: spec_fn(nat) -> Option<Seq<char>>,
    n: nat,
)
    requires
        s.wf(),
    ensures
        run_rounds(s, outcomes, n).wf(),
        run_rounds(s, outcomes, n).max_pages == s.max_pages,
        run_rounds(s, outcomes, n).pages.len() <= s.max_pages,
    decreases n,
{
    if n > 0 {
        let before = run_rounds(s, outcomes, (n - 1) as nat);
        law_pages_within_budget(s, outcomes, (n - 1) as nat);
        law_visited_paths_are_not_fetched(before);
        law_outcome_keeps_crawl_in_bounds(before.polled(), outcomes((n - 1) as nat));
    }
}

/// Whether a link target leads to `path`.
pub open spec fn leads_to(target: Option<Seq<char>>, path: Seq<char>) -> bool {
    match target {
        Some(h) => normalized_href(h) == path,
        None => false,
    }
}

/// Whether a page with these link targets leads the crawl to `path`: one of
/// the targets stands for it, and it is not empty and relevant.
pub open spec fn is_followed(
    hrefs: Seq<Option<Seq<char>>>,
    crate_name: Seq<char>,
    path: Seq<char>,
) -> bool {
    path.len() > 0 && is_relevant(path, crate_name) && exists|k: int|
        0 <= k < hrefs.len() && leads_to(#[trigger] hrefs[k], path)
}

/// Whether the crawl has found `path`: it is one of the two paths that a
/// crawl starts with, or one of the stored pages leads to it.
pub open spec fn is_found(s: CrawlView, path: Seq<char>) -> bool {
    path == Seq::<char>::empty() || path == s.crate_name + "/"@ || exists|i: int|
        0 <= i < s.pages.len() && is_followed(
            page_links(#[trigger] s.pages[i]),
            s.crate_name,
            path,
        )
}

/// Whether the crawl holds `path`: as visited, as queued, or as the path that
/// is being fetched.
pub open spec fn is_held(s: CrawlView, path: Seq<char>) -> bool {
    s.visited.contains(path) || s.queue.contains(path) || (s.fetching matches Some((p, k))
        && p == path)
}

/// Whether the crawl holds every path that it has found.
pub open spec fn loses_nothing(s: CrawlView) -> bool {
    forall|path: Seq<char>| #[trigger] is_found(s, path) ==> is_held(s, path)
}

proof fn lemma_enqueued_covers(
    hrefs: Seq<Option<Seq<char>>>,
    crate_name: Seq<char>,
    visited: Seq<Seq<char>>,
    queue: Seq<Seq<char>>,
)
    ensures
        forall|x: Seq<char>|
            queue.contains(x) ==> #[trigger] enqueued(hrefs, crate_name, visited, queue).contains(
                x,
            ),
        forall|path: Seq<char>| #[trigger]
            is_followed(hrefs, crate_name, path) ==> visited.contains(path) || enqueued(
                hrefs,
                crate_name,
                visited,
                queue,
            ).contains(path),
    decreases hrefs.len(),
{
    let all = enqueued(hrefs, crate_name, visited, queue);
    if hrefs.len() > 0 {
        let shorter = hrefs.drop_last();
        let q = enqueued(shorter, crate_name, visited, queue);
        lemma_enqueued_covers(shorter, crate_name, visited, queue);
        assert forall|x: Seq<char>| q.contains(x) implies all.contains(x) by {
            let j = choose|j: int| 0 <= j < q.len() && q[j] == x;
            assert(all[j] == x);
        }
        assert forall|path: Seq<char>| #[trigger]
            is_followed(hrefs, crate_name, path) implies visited.contains(path) || all.contains(
            path,
        ) by {
            let k = choose|k: int| 0 <= k < hrefs.len() && leads_to(#[trigger] hrefs[k], path);
            if k < shorter.len() {
                assert(shorter[k] == hrefs[k]);
                assert(is_followed(shorter, crate_name, path));
            } else {
                if !visited.contains(path) && !q.contains(path) {
                    assert(all == q.push(path));
                    assert(all[all.len() - 1] == path);
                }
            }
        }
    }
}

proof fn lemma_polled_loses_nothing(s: CrawlView)
    requires
        s.wf(),
        loses_nothing(s),
    ensures
        loses_nothing(s.polled()),
{
    let t = s.polled();
    if s.fetching is None {
        lemma_pending(s.queue, s.visited);
        let q = pending(s.queue, s.visited);
        let d = s.queue.len() - q.len();
        assert forall|path: Seq<char>| #[trigger] is_found(t, path) implies is_held(t, path) by {
            assert(is_found(s, path));
            if s.queue.contains(path) && !s.visited.contains(path) {
                let j = choose|j: int| 0 <= j < s.queue.len() && s.queue[j] == path;
                assert(j >= d);
                assert(q[j - d] == path);
                if t.fetching is Some {
                    if j - d > 0 {
                        assert(q.drop_first()[j - d - 1] == path);
                    }
                }
            }
        }
    }
}

proof fn lemma_delivered_loses_nothing(s: CrawlView, body: Option<Seq<char>>)
    requires
        s.wf(),
        loses_nothing(s),
    ensures
        loses_nothing(s.delivered(body)),
{
    let t = s.delivered(body);
    match s.fetching {
        None => {},
        Some((now, k)) => {
            let visited = s.visited.push(now);
            assert(visited[visited.len() - 1] == now);
            assert forall|x: Seq<char>| s.visited.contains(x) implies visited.contains(x) by {
                let j = choose|j: int| 0 <= j < s.visited.len() && s.visited[j] == x;
                assert(visited[j] == x);
            }
            match body {
                Some(html) => {
                    lemma_enqueued_covers(page_links(html), s.crate_name, visited, s.queue);
                    assert forall|path: Seq<char>| #[trigger] is_found(t, path) implies is_held(
                        t,
                        path,
                    ) by {
                        if path == Seq::<char>::empty() || path == s.crate_name + "/"@ {
                            assert(is_found(s, path));
                        } else {
                            let i = choose|i: int|
                                0 <= i < t.pages.len() && is_followed(
                                    page_links(#[trigger] t.pages[i]),
                                    t.crate_name,
                                    path,
                                );
                            if i < s.pages.len() {
                                assert(t.pages[i] == s.pages[i]);
                                assert(is_found(s, path));
                            } else {
                                assert(t.pages[i] == html);
                            }
                        }
                    }
                },
                None => {
                    assert forall|path: Seq<char>| #[trigger] is_found(t, path) implies is_held(
                        t,
                        path,
                    ) by {
                        assert(is_found(s, path));
                    }
                },
            }
        },
    }
}

/// A crawl loses no path that it has found: from its start on, every path
/// that one of its stored pages leads to is visited, queued or being
/// fetched. Where every request is answered with a body, every path that
/// was visited gave a page.
pub proof fn law_crawl_loses_nothing(
    crate_name: Seq<char>,
    version: Seq<char>,
    max_pages: nat,
    outcomes: spec_fn(nat) -> Option<Seq<char>>,
    n: nat,
)
    ensures
        run_rounds(CrawlView::initial(crate_name, version, max_pages), outcomes, n).wf(),
        loses_nothing(run_rounds(CrawlView::initial(crate_name, version, max_pages), outcomes, n)),
        (forall|k: nat| (#[trigger] outcomes(k)) is Some) ==> {
            let end = run_rounds(CrawlView::initial(crate_name, version, max_pages), outcomes, n);
            end.fetching is None && end.visited.len() == end.pages.len()
        },
    decreases n,
{
    let start = CrawlView::initial(crate_name, version, max_pages);
    law_crawl_starts_well_formed(crate_name, version, max_pages);
    if n == 0 {
        assert forall|path: Seq<char>| #[trigger] is_found(start, path) implies is_held(
            start,
            path,
        ) by {
            assert(start.queue[0] == Seq::<char>::empty());
            assert(start.queue[1] == crate_name + "/"@);
        }
    } else {
        let before = run_rounds(start, outcomes, (n - 1) as nat);
        law_crawl_loses_nothing(crate_name, version, max_pages, outcomes, (n - 1) as nat);
        law_visited_paths_are_not_fetched(before);
        law_outcome_keeps_crawl_in_bounds(before.polled(), outcomes((n - 1) as nat));
        lemma_polled_loses_nothing(before);
        lemma_delivered_loses_nothing(before.polled(), outcomes((n - 1) as nat));
    }
}

/// Once the budget is used up a crawl asks for nothing more.
pub proof fn law_full_crawl_asks_nothing(s: CrawlView)
    requires
        s.wf(),
        s.pages.len() >= s.max_pages,
    ensures
        s.over(),
        s.polled().due() is None,
        s.polled().pages == s.pages,
{
}

/// With every request answered by a body, a crawl that is over has stored
/// exactly as many pages as its budget allows, or it has stored every path
/// that it found: then every visited path gave a page, and every path that
/// a stored page leads to was visited.
pub proof fn law_crawl_fills_budget_or_stores_all(
    crate_name: Seq<char>,
    version: Seq<char>,
    max_pages: nat,
    outcomes: spec_fn(nat) -> Option<Seq<char>>,
    n: nat,
)
    requires
        forall|k: nat| (#[trigger] outcomes(k)) is Some,
        run_rounds(CrawlView::initial(crate_name, version, max_pages), outcomes, n).over(),
    ensures
        ({
            let end = run_rounds(CrawlView::initial(crate_name, version, max_pages), outcomes, n);
            end.pages.len() == max_pages || (end.visited.len() == end.pages.len()
                && end.visited.no_duplicates() && forall|path: Seq<char>| #[trigger]
                is_found(end, path) ==> end.visited.contains(path))
        }),
{
    let end = run_rounds(CrawlView::initial(crate_name, version, max_pages), outcomes, n);
    law_crawl_starts_well_formed(crate_name, version, max_pages);
    law_crawl_loses_nothing(crate_name, version, max_pages, outcomes, n);
    law_pages_within_budget(CrawlView::initial(crate_name, version, max_pages), outcomes, n);
    if end.pages.len() != max_pages {
        law_crawl_stops_only_when_done(end);
        assert(end.queue.len() == 0) by {
            if end.queue.len() > 0 {
                assert(!end.visited.contains(end.queue[0]));
            }
        }
        assert forall|path: Seq<char>| #[trigger] is_found(end, path) implies end.visited.contains(
            path,
        ) by {
            assert(is_held(end, path));
            if end.queue.contains(path) {
                let j = choose|j: int| 0 <= j < end.queue.len() && end.queue[j] == path;
            }
        }
    }
}

/// With a page budget of N, a crawl that finds more than N different paths,
/// each request answered by a body, stores exactly N pages.
pub proof fn law_budget_is_filled_where_more_is_found(
    crate_name: Seq<char>,
    version: Seq<char>,
    max_pages: nat,
    outcomes: spec_fn(nat) -> Option<Seq<char>>,
    n: nat,
    found: Seq<Seq<char>>,
)
    requires
        forall|k: nat| (#[trigger] outcomes(k)) is Some,
        run_rounds(CrawlView::initial(crate_name, version, max_pages), outcomes, n).over(),
        found.no_duplicates(),
        found.len() > max_pages,
        forall|i: int|
            0 <= i < found.len() ==> is_found(
                run_rounds(CrawlView::initial(crate_name, version, max_pages), outcomes, n),
                #[trigger] found[i],
            ),
    ensures
        run_rounds(CrawlView::initial(crate_name, version, max_pages), outcomes, n).pages.len()
            == max_pages,
{
    let end = run_rounds(CrawlView::initial(crate_name, version, max_pages), outcomes, n);
    law_crawl_starts_well_formed(crate_name, version, max_pages);
    law_crawl_fills_budget_or_stores_all(crate_name, version, max_pages, outcomes, n);
    law_pages_within_budget(CrawlView::initial(crate_name, version, max_pages), outcomes, n);
    if end.pages.len() != max_pages {
        assert forall|i: int| 0 <= i < found.len() implies end.visited.contains(
            #[trigger] found[i],
        ) by {
            assert(is_found(end, found[i]));
        }
        lemma_distinct_within(found, end.visited);
    }
}

proof fn lemma_distinct_within(part: Seq<Seq<char>>, whole: Seq<Seq<char>>)
    requires
        part.no_duplicates(),
        forall|i: int| 0 <= i < part.len() ==> whole.contains(#[trigger] part[i]),
    ensures
        part.len() <= whole.len(),
{
    part.unique_seq_to_set();
    whole.lemma_cardinality_of_set();
    vstd::seq_lib::seq_to_set_is_finite(whole);
    assert(part.to_set().subset_of(whole.to_set())) by {
        assert forall|x: Seq<char>| part.to_set().contains(x) implies whole.to_set().contains(
            x,
        ) by {
            let i = choose|i: int| 0 <= i < part.len() && part[i] == x;
            assert(whole.contains(part[i]));
        }
    }
    vstd::set_lib::lemma_len_subset(part.to_set(), whole.to_set());
}

/// Every crawl ends, whatever the outcomes of its requests: after some
/// number of rounds no request is due any more.
pub proof fn law_crawl_ends(s: CrawlView, outcomes: spec_fn(nat) -> Option<Seq<char>>) -> (n: nat)
    requires
        s.wf(),
    ensures
        run_rounds(s, outcomes, n).over(),
{
    lemma_crawl_ends_from(s, outcomes, 0)
}

proof fn lemma_crawl_ends_from(
    s: CrawlView,
    outcomes: spec_fn(nat) -> Option<Seq<char>>,
    k: nat,
) -> (n: nat)
    requires
        run_rounds(s, outcomes, k).wf(),
    ensures
        run_rounds(s, outcomes, n).over(),
    decreases budget_left(run_rounds(s, outcomes, k)), effort_left(run_rounds(s, outcomes, k)),
{
    let now = run_rounds(s, outcomes, k);
    if now.over() {
        k
    } else {
        law_round_brings_crawl_nearer_end(now, outcomes(k));
        law_visited_paths_are_not_fetched(now);
        law_outcome_keeps_crawl_in_bounds(now.polled(), outcomes(k));
        assert(run_rounds(s, outcomes, k + 1) == stepped(now, outcomes(k)));
        lemma_crawl_ends_from(s, outcomes, k + 1)
    }
}

proof fn lemma_marker_up(rest: Seq<char>)
    requires
        rest.len() >= 3,
        rest[0] == '.',
        rest[1] == '.',
        rest[2] == '/',
    ensures
        strip_relative(rest) == strip_relative(rest.skip(3)),
{
    assert(rest.subrange(0, 3) =~= seq!['.', '.', '/']);
}

proof fn lemma_marker_here(rest: Seq<char>)
    requires
        rest.len() >= 2,
        rest[0] == '.',
        rest[1] == '/',
    ensures
        strip_relative(rest) == strip_relative(rest.skip(2)),
{
    assert(rest.subrange(0, 2) =~= seq!['.', '/']);
    if starts_with(rest, seq!['.', '.', '/']) {
        assert(rest.subrange(0, 3)[1] == '.');
    }
}

proof fn lemma_no_marker(rest: Seq<char>)
    requires
        !(rest.len() >= 3 && rest[0] == '.' && rest[1] == '.' && rest[2] == '/'),
        !(rest.len() >= 2 && rest[0] == '.' && rest[1] == '/'),
    ensures
        strip_relative(rest) == rest,
{
    if starts_with(rest, seq!['.', '.', '/']) {
        assert(rest.subrange(0, 3)[0] == '.');
        assert(rest.subrange(0, 3)[1] == '.');
        assert(rest.subrange(0, 3)[2] == '/');
    }
    if starts_with(rest, seq!['.', '/']) {
        assert(rest.subrange(0, 2)[0] == '.');
        assert(rest.subrange(0, 2)[1] == '/');
    }
}

/// The path that a link target stands for.
pub fn normalize_docs_href(href: &str) -> (r: String)
    ensures
        r@ == normalized_href(href@),
{
    let v = to_chars(href);
    let mut i: usize = 0;
    assert(v@.skip(0) =~= v@);
    loop
        invariant
            i <= v.len(),
            strip_relative(v@) == strip_relative(v@.skip(i as int)),
        ensures
            i <= v.len(),
            strip_relative(v@) == v@.skip(i as int),
        decreases v.len() - i,
    {
        let ghost rest = v@.skip(i as int);
        if v.len() - i >= 3 && v[i] == '.' && v[i + 1] == '.' && v[i + 2] == '/' {
            proof {
                lemma_marker_up(rest);
                assert(rest.skip(3) =~= v@.skip(i + 3));
            }
            i += 3;
        } else if v.len() - i >= 2 && v[i] == '.' && v[i + 1] == '/' {
            proof {
                lemma_marker_here(rest);
                assert(rest.skip(2) =~= v@.skip(i + 2));
            }
            i += 2;
        } else {
            proof {
                lemma_no_marker(rest);
            }
            break;
        }
    }
    let rest = slice_of(&v, i, v.len());
    assert(rest@ =~= v@.skip(i as int));
    let cut = slice_of(&rest, 0, scan(&rest, CharClass::Only('#'), 0));
    let start = scan(&cut, CharClass::Except('/'), 0);
    to_text(&cut, start, cut.len())
}

fn relevant(path: &Vec<char>, crate_name: &Vec<char>) -> (b: bool)
    ensures
        b == is_relevant(path@, crate_name@),
{
    if find_sub(path, crate_name, 0).is_some() {
        return true;
    }
    if stands_at(path, &to_chars("crate"), 0) {
        return true;
    }
    if find_sub(path, &to_chars("struct"), 0).is_some() {
        return true;
    }
    if find_sub(path, &to_chars("fn"), 0).is_some() {
        return true;
    }
    if find_sub(path, &to_chars("module"), 0).is_some() {
        return true;
    }
    let suffix = to_chars(".html");
    if suffix.len() > path.len() {
        return false;
    }
    stands_at(path, &suffix, path.len() - suffix.len())
}

/// The addresses that are tried for a path, in order.
pub fn candidate_urls(crate_name: &str, version: &str, path: &str) -> (r: Vec<String>)
    ensures
        texts(r@) == page_urls(crate_name@, version@, path@),
{
    let v = to_chars(path);
    let (from, to) = trim_bounds(&v);
    let mut docs = String::from_str("https://docs.rs/");
    docs.append(crate_name);
    docs.append("/");
    docs.append(version);
    docs.append("/");
    let mut index = String::from_str("https://docs.rs/crate/");
    index.append(crate_name);
    index.append("/");
    index.append(version);
    index.append("/");
    let mut urls: Vec<String> = Vec::new();
    if from == to {
        urls.push(docs);
        urls.push(index);
        assert(texts(urls@) =~= page_urls(crate_name@, version@, path@));
    } else {
        let p = slice_of(&v, from, to);
        let whole = to_text(&p, 0, p.len());
        assert(whole@ =~= p@);
        let start = scan(&p, CharClass::Except('/'), 0);
        let bare = to_text(&p, start, p.len());
        let mut first = docs.clone();
        first.append(whole.as_str());
        let mut second = index;
        second.append(whole.as_str());
        let mut third = docs;
        third.append(bare.as_str());
        urls.push(first);
        urls.push(second);
        urls.push(third);
        assert(texts(urls@) =~= page_urls(crate_name@, version@, path@));
    }
    urls
}

/// Whether one of the queued paths reads `t`.
pub fn queue_holds(queue: &VecDeque<String>, t: &String) -> (b: bool)
    ensures
        b == texts(queue@).contains(t@),
{
    let mut i: usize = 0;
    while i < queue.len()
        invariant
            i <= queue.len(),
            forall|j: int| 0 <= j < i ==> texts(queue@)[j] != t@,
        decreases queue.len() - i,
    {
        if queue[i] == *t {
            assert(texts(queue@)[i as int] == t@);
            return true;
        }
        i += 1;
    }
    false
}

/// Looks through the link targets of a page: each target whose path is not
/// empty, is relevant, was not visited and is not queued yet joins the
/// queue.
pub fn enqueue_links(
    links: &Vec<Option<String>>,
    crate_name: &str,
    visited: &Vec<String>,
    queue: &mut VecDeque<String>,
)
    ensures
        texts(final(queue)@) == enqueued(
            optional_texts(links@),
            crate_name@,
            texts(visited@),
            texts(old(queue)@),
        ),
{
    let name = to_chars(crate_name);
    let ghost hrefs = optional_texts(links@);
    let ghost start = texts(queue@);
    let mut i: usize = 0;
    assert(hrefs.take(0) =~= Seq::<Option<Seq<char>>>::empty());
    while i < links.len()
        invariant
            i <= links.len(),
            hrefs == optional_texts(links@),
            name@ == crate_name@,
            texts(queue@) == enqueued(hrefs.take(i as int), name@, texts(visited@), start),
        decreases links.len() - i,
    {
        assert(hrefs.take(i + 1).drop_last() =~= hrefs.take(i as int));
        assert(hrefs.take(i + 1).last() == hrefs[i as int]);
        match &links[i] {
            Some(href) => {
                let path = normalize_docs_href(href.as_str());
                let chars = to_chars(path.as_str());
                if chars.len() > 0 && relevant(&chars, &name) && !holds_text(visited, &path)
                    && !queue_holds(queue, &path) {
                    let ghost before = texts(queue@);
                    queue.push_back(path);
                    assert(texts(queue@) =~= before.push(path@));
                }
            },
            None => {},
        }
        i += 1;
    }
    assert(hrefs.take(links.len() as int) =~= hrefs);
}

/// A crawl of the documentation of one version of one package.
pub struct Crawl {
    crate_name: String,
    version: String,
    max_pages: usize,
    queue: VecDeque<String>,
    visited: Vec<String>,
    pages: Vec<String>,
    path: Option<String>,
    attempt: usize,
}

impl View for Crawl {
    type V = CrawlView;

    closed spec fn view(&self) -> CrawlView {
        CrawlView {
            crate_name: self.crate_name@,
            version: self.version@,
            max_pages: self.max_pages as nat,
            queue: texts(self.queue@),
            visited: texts(self.visited@),
            pages: texts(self.pages@),
            fetching: match self.path {
                Some(p) => Some((p@, self.attempt as nat)),
                None => None,
            },
        }
    }
}

impl Crawl {
    /// A crawl that has fetched nothing yet.
    pub fn new(crate_name: &str, version: &str, max_pages: usize) -> (c: Crawl)
        ensures
            c@ == CrawlView::initial(crate_name@, version@, max_pages as nat),
            c@.wf(),
    {
        let mut queue: VecDeque<String> = VecDeque::new();
        queue.push_back(String::new());
        let mut index = String::from_str(crate_name);
        index.append("/");
        queue.push_back(index);
        let c = Crawl {
            crate_name: String::from_str(crate_name),
            version: String::from_str(version),
            max_pages,
            queue,
            visited: Vec::new(),
            pages: Vec::new(),
            path: None,
            attempt: 0,
        };
        proof {
            let i = CrawlView::initial(crate_name@, version@, max_pages as nat);
            assert(c@.queue =~= i.queue);
            assert(c@.visited =~= i.visited);
            assert(c@.pages =~= i.pages);
            law_crawl_starts_well_formed(crate_name@, version@, max_pages as nat);
        }
        c
    }

    /// The request to perform next; `None` when the crawl is over.
    pub fn poll(&mut self) -> (r: Option<Request>)
        requires
            old(self)@.wf(),
        ensures
            final(self)@ == old(self)@.polled(),
            final(self)@.wf(),
            request_view(r) == final(self)@.due(),
    {
        proof {
            law_visited_paths_are_not_fetched(self@);
        }
        if self.path.is_none() {
            while self.queue.len() > 0 && holds_text(&self.visited, &self.queue[0])
                invariant
                    self.path is None,
                    self.crate_name == old(self).crate_name,
                    self.version == old(self).version,
                    self.max_pages == old(self).max_pages,
                    self.visited == old(self).visited,
                    self.pages == old(self).pages,
                    pending(texts(self.queue@), texts(self.visited@)) == pending(
                        texts(old(self).queue@),
                        texts(old(self).visited@),
                    ),
                decreases self.queue.len(),
            {
                let ghost before = texts(self.queue@);
                let _ = self.queue.pop_front();
                assert(texts(self.queue@) =~= before.drop_first());
            }
            if self.pages.len() < self.max_pages {
                let ghost before = texts(self.queue@);
                match self.queue.pop_front() {
                    Some(path) => {
                        assert(texts(self.queue@) =~= before.drop_first());
                        assert(before[0] == path@);
                        self.path = Some(path);
                        self.attempt = 0;
                    },
                    None => {},
                }
            }
        }
        match &self.path {
            Some(path) => {
                let urls = candidate_urls(
                    self.crate_name.as_str(),
                    self.version.as_str(),
                    path.as_str(),
                );
                assert(texts(urls@)[self.attempt as int] == urls@[self.attempt as int]@);
                let url = urls[self.attempt].clone();
                Some(request(url, PAGE_TIMEOUT_SECS))
            },
            None => None,
        }
    }

    /// Takes the outcome of the request that `poll` named last.
    pub fn deliver(&mut self, outcome: Outcome)
        requires
            old(self)@.wf(),
        ensures
            final(self)@ == old(self)@.delivered(body_of(outcome)),
            final(self)@.wf(),
    {
        proof {
            law_outcome_keeps_crawl_in_bounds(self@, body_of(outcome));
        }
        let path = match self.path.take() {
            Some(p) => p,
            None => {
                return ;
            },
        };
        match outcome {
            Outcome::Body(html) => {
                let links = links_of(html.as_str());
                let ghost old_pages = texts(self.pages@);
                let ghost old_visited = texts(self.visited@);
                self.pages.push(html);
                self.visited.push(path);
                assert(texts(self.pages@) =~= old_pages.push(html@));
                assert(texts(self.visited@) =~= old_visited.push(path@));
                enqueue_links(&links, self.crate_name.as_str(), &self.visited, &mut self.queue);
            },
            _ => {
                let urls = candidate_urls(
                    self.crate_name.as_str(),
                    self.version.as_str(),
                    path.as_str(),
                );
                let n = urls.len();
                assert(texts(urls@).len() == n);
                if self.attempt + 1 < n {
                    self.attempt = self.attempt + 1;
                    self.path = Some(path);
                } else {
                    let ghost old_visited = texts(self.visited@);
                    self.visited.push(path);
                    assert(texts(self.visited@) =~= old_visited.push(path@));
                }
            },
        }
    }

    /// How many pages were stored.
    pub fn pages_count(&self) -> (n: usize)
        ensures
            n == self@.pages.len(),
    {
        self.pages.len()
    }

    /// What the crawl hands on: the bodies of the stored pages in order,
    /// their number, and the visited paths.
    pub fn into_output(self) -> (r: (Vec<String>, usize, Vec<String>))
        ensures
            texts(r.0@) == self@.pages,
            r.1 == self@.pages.len(),
            texts(r.2@) == self@.visited,
    {
        let count = self.pages.len();
        (self.pages, count, self.visited)
    }
}

} // verus!
