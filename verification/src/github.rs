//! A package's source repository: its owner and name, its default branch,
//! its README and its example files.

use vstd::prelude::*;

use crate::fetch::{body_of, is_success, request, request_view, Outcome, Request, RequestView};
use crate::html::{links_of, optional_texts, page_links};
use crate::text::{
    ends_with, find_sub, first_in, first_match, has_sub, holds_text, lemma_first_match,
    matches_at, runs, scan, scan_back, slice_of, split, split_on, stands_at, starts_with,
    strip_leading, strip_trailing, texts, to_chars, to_text, CharClass,
};

verus! {

/// `s` without the `.git` suffixes that it ends with.
pub open spec fn strip_git(s: Seq<char>) -> Seq<char>
    decreases s.len(),
{
    if ends_with(s, seq!['.', 'g', 'i', 't']) {
        strip_git(s.take(s.len() - 4))
    } else {
        s
    }
}

/// The owner and the name of the repository that an address names: the two
/// path segments after the host, the address taken without its `.git`
/// suffixes and trailing slashes. `None` where the host does not occur or
/// fewer than two segments follow it.
pub open spec fn owner_and_repo(url: Seq<char>) -> Option<(Seq<char>, Seq<char>)> {
    let host = "github.com/"@;
    let s = strip_trailing(strip_git(url), '/');
    let i = first_match(s, host, 0);
    let parts = split(s.skip(i + host.len()), '/');
    if has_sub(url, host) && i <= s.len() && parts.len() >= 2 {
        Some((parts[0], parts[1]))
    } else {
        None
    }
}

/// The default branch that a repository page declares: what stands between
/// the attribute's opening quote and the next quote, unless that is empty or
/// no quote follows.
pub open spec fn declared_branch(body: Seq<char>) -> Option<Seq<char>> {
    let key = "data-default-branch=\""@;
    let i = first_match(body, key, 0);
    let after = body.skip(i + key.len());
    let end = first_in(after, CharClass::Only('"'), 0);
    if i <= body.len() && 0 < end < after.len() {
        Some(after.take(end))
    } else {
        None
    }
}

/// What the target of a link to a file of a branch starts with, seen from
/// the host: the owner, the repository, the marker of a file view and the
/// branch.
pub open spec fn blob_prefix(owner: Seq<char>, repo: Seq<char>, branch: Seq<char>) -> Seq<char> {
    "/"@ + owner + "/"@ + repo + "/blob/"@ + branch + "/"@
}

/// What the target of a link to a file of the branch's example directory
/// holds: the prefix of a file of the branch, and the directory.
pub open spec fn examples_dir(owner: Seq<char>, repo: Seq<char>, branch: Seq<char>) -> Seq<char> {
    blob_prefix(owner, repo, branch) + "examples/"@
}

/// The path of the example file that a link of the listing page points at:
/// where the target holds the example directory of the repository's branch,
/// and something after it, the path is what follows the branch, from
/// `examples/` on. A link to anything else, or to the directory itself,
/// gives none.
pub open spec fn example_path(
    href: Seq<char>,
    owner: Seq<char>,
    repo: Seq<char>,
    branch: Seq<char>,
) -> Option<Seq<char>> {
    let dir = examples_dir(owner, repo, branch);
    let i = first_match(href, dir, 0);
    if i <= href.len() && i + dir.len() < href.len() {
        Some(href.skip(i + blob_prefix(owner, repo, branch).len()))
    } else {
        None
    }
}

/// The example paths that the links of a listing page give, each once, in
/// the order of the page.
pub open spec fn example_paths(
    hrefs: Seq<Option<Seq<char>>>,
    owner: Seq<char>,
    repo: Seq<char>,
    branch: Seq<char>,
) -> Seq<Seq<char>>
    decreases hrefs.len(),
{
    if hrefs.len() == 0 {
        Seq::empty()
    } else {
        let before = example_paths(hrefs.drop_last(), owner, repo, branch);
        match hrefs.last() {
            Some(h) => match example_path(h, owner, repo, branch) {
                Some(p) => if before.contains(p) {
                    before
                } else {
                    before.push(p)
                },
                None => before,
            },
            None => before,
        }
    }
}

/// A link whose target is the example directory of the repository's branch
/// followed by the name of a file gives the path of that file under
/// `examples/`.
pub proof fn law_link_to_example_gives_its_path(
    owner: Seq<char>,
    repo: Seq<char>,
    branch: Seq<char>,
    file: Seq<char>,
)
    requires
        file.len() > 0,
    ensures
        example_path(examples_dir(owner, repo, branch) + file, owner, repo, branch) == Some(
            "examples/"@ + file,
        ),
{
    let prefix = blob_prefix(owner, repo, branch);
    let dir = examples_dir(owner, repo, branch);
    let href = dir + file;
    assert(href.subrange(0, dir.len() as int) =~= dir);
    assert(matches_at(href, dir, 0));
    assert(href.skip(prefix.len() as int) =~= "examples/"@ + file);
}

/// Every example path lies under the example directory: it starts with
/// `examples/` and names something in it.
pub proof fn law_example_path_lies_under_examples(
    href: Seq<char>,
    owner: Seq<char>,
    repo: Seq<char>,
    branch: Seq<char>,
)
    ensures
        example_path(href, owner, repo, branch) matches Some(p) ==> starts_with(p, "examples/"@)
            && p.len() > "examples/"@.len(),
{
    let prefix = blob_prefix(owner, repo, branch);
    let dir = examples_dir(owner, repo, branch);
    let i = first_match(href, dir, 0);
    if i <= href.len() && i + dir.len() < href.len() {
        lemma_first_match(href, dir, 0);
        let p = href.skip(i + prefix.len());
        let d = "examples/"@;
        assert(p.subrange(0, d.len() as int) =~= href.subrange(i, i + dir.len()).skip(
            prefix.len() as int,
        ));
        assert(dir.skip(prefix.len() as int) =~= d);
    }
}

/// The example paths of a listing are pairwise different, and each is the
/// path that one of the links gives.
pub proof fn law_example_paths_are_distinct(
    hrefs: Seq<Option<Seq<char>>>,
    owner: Seq<char>,
    repo: Seq<char>,
    branch: Seq<char>,
)
    ensures
        example_paths(hrefs, owner, repo, branch).no_duplicates(),
        forall|i: int|
            0 <= i < example_paths(hrefs, owner, repo, branch).len() ==> exists|k: int|
                0 <= k < hrefs.len() && hrefs[k] is Some && example_path(
                    hrefs[k]->0,
                    owner,
                    repo,
                    branch,
                ) == Some(#[trigger] example_paths(hrefs, owner, repo, branch)[i]),
    decreases hrefs.len(),
{
    if hrefs.len() > 0 {
        let shorter = hrefs.drop_last();
        law_example_paths_are_distinct(shorter, owner, repo, branch);
        let before = example_paths(shorter, owner, repo, branch);
        let all = example_paths(hrefs, owner, repo, branch);
        assert forall|i: int| 0 <= i < all.len() implies exists|k: int|
            0 <= k < hrefs.len() && hrefs[k] is Some && example_path(
                hrefs[k]->0,
                owner,
                repo,
                branch,
            ) == Some(#[trigger] all[i]) by {
            if i < before.len() {
                assert(all[i] == before[i]);
                let k = choose|k: int|
                    0 <= k < shorter.len() && shorter[k] is Some && example_path(
                        shorter[k]->0,
                        owner,
                        repo,
                        branch,
                    ) == Some(before[i]);
                assert(shorter[k] == hrefs[k]);
            } else {
                let k = hrefs.len() - 1;
                assert(hrefs[k] is Some);
            }
        }
    }
}

/// Every link to a file of the example directory is listed: the path that a
/// link gives stands among the example paths.
pub proof fn law_every_example_link_is_listed(
    hrefs: Seq<Option<Seq<char>>>,
    owner: Seq<char>,
    repo: Seq<char>,
    branch: Seq<char>,
    k: int,
)
    requires
        0 <= k < hrefs.len(),
        hrefs[k] is Some,
        example_path(hrefs[k]->0, owner, repo, branch) is Some,
    ensures
        example_paths(hrefs, owner, repo, branch).contains(
            example_path(hrefs[k]->0, owner, repo, branch)->0,
        ),
    decreases hrefs.len(),
{
    let p = example_path(hrefs[k]->0, owner, repo, branch)->0;
    let shorter = hrefs.drop_last();
    let before = example_paths(shorter, owner, repo, branch);
    let all = example_paths(hrefs, owner, repo, branch);
    if k == hrefs.len() - 1 {
        if before.contains(p) {
            let j = choose|j: int| 0 <= j < before.len() && before[j] == p;
            assert(all[j] == p);
        } else {
            assert(all[all.len() - 1] == p);
        }
    } else {
        assert(shorter[k] == hrefs[k]);
        law_every_example_link_is_listed(shorter, owner, repo, branch, k);
        let j = choose|j: int| 0 <= j < before.len() && before[j] == p;
        assert(all[j] == before[j]);
    }
}

/// The example files that are tried where the listing names none.
pub open spec fn usual_examples() -> Seq<Seq<char>> {
    seq![
        "examples/main.rs"@,
        "examples/05_astroblasto.rs"@,
        "examples/simple.rs"@,
        "examples/brick_breaker.rs"@,
    ]
}

/// The address of a repository's page.
pub open spec fn landing_url(owner: Seq<char>, repo: Seq<char>) -> Seq<char> {
    "https://github.com/"@ + owner + "/"@ + repo
}

/// The address of the page that lists a repository's example directory.
pub open spec fn listing_url(owner: Seq<char>, repo: Seq<char>, branch: Seq<char>) -> Seq<char> {
    "https://github.com/"@ + owner + "/"@ + repo + "/tree/"@ + branch + "/examples"@
}

/// The address of the raw content of a file of a repository.
pub open spec fn raw_url(owner: Seq<char>, repo: Seq<char>, branch: Seq<char>, file: Seq<char>) -> Seq<
    char,
> {
    "https://raw.githubusercontent.com/"@ + owner + "/"@ + repo + "/"@ + branch + "/"@ + file
}

/// The branch names that are tried in turn where the page declares none.
pub open spec fn branch_guess(k: nat) -> Seq<char> {
    if k == 0 {
        "main"@
    } else {
        "master"@
    }
}

/// The file names under which a README is looked for, in turn.
pub open spec fn readme_name(k: nat) -> Seq<char> {
    if k == 0 {
        "README.md"@
    } else {
        "readme.md"@
    }
}

/// What is recorded where no README could be fetched.
pub open spec fn readme_failure(owner: Seq<char>, repo: Seq<char>, branch: Seq<char>) -> Seq<char> {
    "Could not fetch README from GitHub for "@ + owner + "/"@ + repo + " on branch '"@ + branch
        + "'"@
}

/// Where the work on a repository stands.
pub enum RepoPhase {
    /// The repository page is asked for.
    Landing,
    /// The README of the guessed branch with this index is asked for.
    Probe(nat),
    /// The README under the file name with this index is asked for.
    Readme(nat),
    /// The listing of the example directory is asked for.
    Listing,
    /// The example file with this index is next.
    Files(nat),
}

#[derive(Clone, Copy, Debug)]
enum Phase {
    Landing,
    Probe(usize),
    Readme(usize),
    Listing,
    Files(usize),
}

impl View for Phase {
    type V = RepoPhase;

    closed spec fn view(&self) -> RepoPhase {
        match *self {
            Phase::Landing => RepoPhase::Landing,
            Phase::Probe(k) => RepoPhase::Probe(k as nat),
            Phase::Readme(k) => RepoPhase::Readme(k as nat),
            Phase::Listing => RepoPhase::Listing,
            Phase::Files(i) => RepoPhase::Files(i as nat),
        }
    }
}

/// The state of the work on a repository.
pub struct RepoView {
    pub owner: Seq<char>,
    pub repo: Seq<char>,
    /// How many example files may be fetched.
    pub max_files: nat,
    pub phase: RepoPhase,
    /// The branch to read from; settled once the phase is past `Probe`.
    pub branch: Seq<char>,
    pub readme: Option<Seq<char>>,
    /// The example files to try, in order; settled once the phase is `Files`.
    pub paths: Seq<Seq<char>>,
    /// The example files that were fetched: path and content.
    pub examples: Seq<(Seq<char>, Seq<char>)>,
    pub errors: Seq<Seq<char>>,
}

impl RepoView {
    /// The work starts with the repository page, and reads from `main`
    /// until a branch is settled.
    pub open spec fn initial(owner: Seq<char>, repo: Seq<char>, max_files: nat) -> RepoView {
        RepoView {
            owner,
            repo,
            max_files,
            phase: RepoPhase::Landing,
            branch: "main"@,
            readme: None,
            paths: Seq::empty(),
            examples: Seq::empty(),
            errors: Seq::empty(),
        }
    }

    /// What holds of every state that the work reaches. The example files
    /// never outnumber the budget. Until the README was looked for there is
    /// neither a README nor an error; from then on there is an error exactly
    /// where there is no README.
    pub open spec fn wf(self) -> bool {
        &&& self.examples.len() <= self.max_files
        &&& self.phase matches RepoPhase::Files(i) ==> self.examples.len() <= i <= self.paths.len()
        &&& !(self.phase is Files) ==> self.examples.len() == 0
        &&& self.errors.len() <= 1
        &&& if self.phase is Listing || self.phase is Files {
            self.errors.len() == 0 <==> self.readme is Some
        } else {
            self.errors.len() == 0 && self.readme is None
        }
    }

    /// The request that is due; none when the work is over.
    pub open spec fn due(self) -> Option<RequestView> {
        match self.phase {
            RepoPhase::Landing => Some(
                RequestView { url: landing_url(self.owner, self.repo), timeout_secs: 10 },
            ),
            RepoPhase::Probe(k) => Some(
                RequestView {
                    url: raw_url(self.owner, self.repo, branch_guess(k), "README.md"@),
                    timeout_secs: 8,
                },
            ),
            RepoPhase::Readme(k) => Some(
                RequestView {
                    url: raw_url(self.owner, self.repo, self.branch, readme_name(k)),
                    timeout_secs: 10,
                },
            ),
            RepoPhase::Listing => Some(
                RequestView {
                    url: listing_url(self.owner, self.repo, self.branch),
                    timeout_secs: 10,
                },
            ),
            RepoPhase::Files(i) => if i < self.paths.len() && self.examples.len()
                < self.max_files {
                Some(
                    RequestView {
                        url: raw_url(
                            self.owner,
                            self.repo,
                            self.branch,
                            strip_leading(self.paths[i as int], '/'),
                        ),
                        timeout_secs: 10,
                    },
                )
            } else {
                None
            },
        }
    }

    /// The state after the outcome of the request that was due. `body` is
    /// the body that came, `success` whether the server answered with
    /// success.
    pub open spec fn delivered(self, body: Option<Seq<char>>, success: bool) -> RepoView {
        match self.phase {
            RepoPhase::Landing => {
                let declared = match body {
                    Some(b) => declared_branch(b),
                    None => None,
                };
                match declared {
                    Some(branch) => RepoView { branch, phase: RepoPhase::Readme(0), ..self },
                    None => RepoView { phase: RepoPhase::Probe(0), ..self },
                }
            },
            RepoPhase::Probe(k) => if success {
                RepoView { branch: branch_guess(k), phase: RepoPhase::Readme(0), ..self }
            } else if k == 0 {
                RepoView { phase: RepoPhase::Probe(1), ..self }
            } else {
                RepoView { branch: "main"@, phase: RepoPhase::Readme(0), ..self }
            },
            RepoPhase::Readme(k) => match body {
                Some(text) => RepoView { readme: Some(text), phase: RepoPhase::Listing, ..self },
                None => if k == 0 {
                    RepoView { phase: RepoPhase::Readme(1), ..self }
                } else {
                    RepoView {
                        errors: self.errors.push(
                            readme_failure(self.owner, self.repo, self.branch),
                        ),
                        phase: RepoPhase::Listing,
                        ..self
                    }
                },
            },
            RepoPhase::Listing => {
                let found = match body {
                    Some(b) => example_paths(page_links(b), self.owner, self.repo, self.branch),
                    None => Seq::empty(),
                };
                RepoView {
                    paths: if found.len() == 0 {
                        usual_examples()
                    } else {
                        found
                    },
                    phase: RepoPhase::Files(0),
                    ..self
                }
            },
            RepoPhase::Files(i) => if self.due() is None {
                self
            } else {
                match body {
                    Some(content) => RepoView {
                        examples: self.examples.push((self.paths[i as int], content)),
                        phase: RepoPhase::Files(i + 1),
                        ..self
                    },
                    None => RepoView { phase: RepoPhase::Files(i + 1), ..self },
                }
            },
        }
    }
}

/// The example files never outnumber the budget, and none is ever dropped:
/// the outcome of a request keeps the state well formed.
pub proof fn law_examples_within_budget(s: RepoView, body: Option<Seq<char>>, success: bool)
    requires
        s.wf(),
    ensures
        s.delivered(body, success).wf(),
        s.delivered(body, success).examples.len() <= s.max_files,
        s.examples.len() <= s.delivered(body, success).examples.len(),
        forall|i: int|
            0 <= i < s.examples.len() ==> s.delivered(body, success).examples[i] == s.examples[i],
{
}

/// How far the work on a repository is from asking for example files.
pub open spec fn phase_rank(p: RepoPhase) -> int {
    match p {
        RepoPhase::Landing => 6,
        RepoPhase::Probe(k) => if k == 0 {
            5
        } else {
            4
        },
        RepoPhase::Readme(k) => if k == 0 {
            3
        } else {
            2
        },
        RepoPhase::Listing => 1,
        RepoPhase::Files(i) => 0,
    }
}

/// How many example files are still to be tried.
pub open spec fn files_left(s: RepoView) -> int {
    match s.phase {
        RepoPhase::Files(i) => s.paths.len() - i,
        _ => 0,
    }
}

/// The outcome of a request that was due brings the work on a repository
/// nearer to its end: it reaches a later phase, or has one file less to try.
pub proof fn law_outcome_brings_repository_nearer_end(
    s: RepoView,
    body: Option<Seq<char>>,
    success: bool,
)
    requires
        s.wf(),
        s.due() is Some,
    ensures
        0 <= phase_rank(s.delivered(body, success).phase) <= phase_rank(s.phase),
        0 <= files_left(s.delivered(body, success)),
        phase_rank(s.delivered(body, success).phase) < phase_rank(s.phase) || files_left(
            s.delivered(body, success),
        ) < files_left(s),
{
}

/// The views of pairs of strings.
pub open spec fn pairs(v: Seq<(String, String)>) -> Seq<(Seq<char>, Seq<char>)> {
    Seq::new(v.len(), |i: int| (v[i].0@, v[i].1@))
}

/// The owner and the name of the repository that an address names.
pub fn parse_github_owner_repo(repo_url: &str) -> (r: Option<(String, String)>)
    ensures
        match r {
            Some((owner, repo)) => owner_and_repo(repo_url@) == Some((owner@, repo@)),
            None => owner_and_repo(repo_url@) is None,
        },
{
    let v = to_chars(repo_url);
    let host = to_chars("github.com/");
    if find_sub(&v, &host, 0).is_none() {
        return None;
    }
    let git: Vec<char> = vec!['.', 'g', 'i', 't'];
    assert(git@ =~= seq!['.', 'g', 'i', 't']);
    let mut n: usize = v.len();
    assert(v@.take(n as int) =~= v@);
    while n >= 4 && stands_at(&v, &git, n - 4)
        invariant
            n <= v.len(),
            git@ == seq!['.', 'g', 'i', 't'],
            strip_git(v@) == strip_git(v@.take(n as int)),
        decreases n,
    {
        assert(v@.take(n as int).subrange(n - 4, n as int) =~= v@.subrange(n - 4, n as int));
        assert(v@.take(n as int).take(n - 4) =~= v@.take(n - 4));
        n -= 4;
    }
    proof {
        let s = v@.take(n as int);
        if n >= 4 {
            assert(s.subrange(n - 4, n as int) =~= v@.subrange(n - 4, n as int));
        }
        assert(!ends_with(s, git@));
    }
    let bare = slice_of(&v, 0, n);
    assert(bare@ =~= v@.take(n as int));
    let end = scan_back(&bare, CharClass::Except('/'), bare.len());
    let s = slice_of(&bare, 0, end);
    assert(s@ =~= strip_trailing(strip_git(v@), '/'));
    match find_sub(&s, &host, 0) {
        None => None,
        Some(i) => {
            proof {
                lemma_first_match(s@, host@, 0);
            }
            let tail = slice_of(&s, i + host.len(), s.len());
            assert(tail@ =~= s@.skip(i + host.len()));
            let parts = split_on(&tail, '/');
            assert(runs(parts@).len() == parts.len());
            if parts.len() >= 2 {
                assert(runs(parts@)[0] == parts@[0]@);
                assert(runs(parts@)[1] == parts@[1]@);
                let owner = to_text(&parts[0], 0, parts[0].len());
                let repo = to_text(&parts[1], 0, parts[1].len());
                assert(owner@ =~= parts@[0]@);
                assert(repo@ =~= parts@[1]@);
                Some((owner, repo))
            } else {
                None
            }
        },
    }
}

/// The default branch that a repository page declares.
pub fn read_declared_branch(body: &str) -> (r: Option<String>)
    ensures
        match r {
            Some(b) => declared_branch(body@) == Some(b@),
            None => declared_branch(body@) is None,
        },
{
    let v = to_chars(body);
    let key = to_chars("data-default-branch=\"");
    match find_sub(&v, &key, 0) {
        None => None,
        Some(i) => {
            proof {
                lemma_first_match(v@, key@, 0);
            }
            let after = slice_of(&v, i + key.len(), v.len());
            assert(after@ =~= v@.skip(i + key.len()));
            let end = scan(&after, CharClass::Only('"'), 0);
            if 0 < end && end < after.len() {
                let b = to_text(&after, 0, end);
                assert(b@ =~= after@.take(end as int));
                Some(b)
            } else {
                None
            }
        },
    }
}

/// The path of the example file that a link of the listing page points at.
pub fn read_example_path(href: &str, owner: &str, repo: &str, branch: &str) -> (r: Option<String>)
    ensures
        match r {
            Some(p) => example_path(href@, owner@, repo@, branch@) == Some(p@),
            None => example_path(href@, owner@, repo@, branch@) is None,
        },
{
    let mut prefix = String::from_str("/");
    prefix.append(owner);
    prefix.append("/");
    prefix.append(repo);
    prefix.append("/blob/");
    prefix.append(branch);
    prefix.append("/");
    let mut dir = prefix.clone();
    dir.append("examples/");
    let v = to_chars(href);
    let d = to_chars(dir.as_str());
    let skipped = to_chars(prefix.as_str()).len();
    match find_sub(&v, &d, 0) {
        None => None,
        Some(i) => {
            proof {
                lemma_first_match(v@, d@, 0);
                assert(d@.len() == prefix@.len() + "examples/"@.len());
            }
            if d.len() < v.len() - i {
                let p = to_text(&v, i + skipped, v.len());
                assert(p@ =~= v@.skip(i + skipped));
                Some(p)
            } else {
                None
            }
        },
    }
}

/// The example paths that the links of a listing page give.
pub fn list_example_paths(
    links: &Vec<Option<String>>,
    owner: &str,
    repo: &str,
    branch: &str,
) -> (r: Vec<String>)
    ensures
        texts(r@) == example_paths(optional_texts(links@), owner@, repo@, branch@),
{
    let mut out: Vec<String> = Vec::new();
    let ghost hrefs = optional_texts(links@);
    let mut i: usize = 0;
    assert(hrefs.take(0) =~= Seq::<Option<Seq<char>>>::empty());
    assert(texts(out@) =~= Seq::<Seq<char>>::empty());
    while i < links.len()
        invariant
            i <= links.len(),
            hrefs == optional_texts(links@),
            texts(out@) == example_paths(hrefs.take(i as int), owner@, repo@, branch@),
        decreases links.len() - i,
    {
        assert(hrefs.take(i + 1).drop_last() =~= hrefs.take(i as int));
        assert(hrefs.take(i + 1).last() == hrefs[i as int]);
        match &links[i] {
            Some(href) => {
                match read_example_path(href.as_str(), owner, repo, branch) {
                    Some(p) => {
                        if !holds_text(&out, &p) {
                            let ghost before = texts(out@);
                            out.push(p);
                            assert(texts(out@) =~= before.push(p@));
                        }
                    },
                    None => {},
                }
            },
            None => {},
        }
        i += 1;
    }
    assert(hrefs.take(links.len() as int) =~= hrefs);
    out
}

fn raw_address(owner: &str, repo: &str, branch: &str, file: &str) -> (r: String)
    ensures
        r@ == raw_url(owner@, repo@, branch@, file@),
{
    let mut url = String::from_str("https://raw.githubusercontent.com/");
    url.append(owner);
    url.append("/");
    url.append(repo);
    url.append("/");
    url.append(branch);
    url.append("/");
    url.append(file);
    url
}

/// The work on one repository: its branch, its README, its example files.
pub struct Repo {
    owner: String,
    repo: String,
    max_files: usize,
    phase: Phase,
    branch: String,
    readme: Option<String>,
    paths: Vec<String>,
    examples: Vec<(String, String)>,
    errors: Vec<String>,
}

impl View for Repo {
    type V = RepoView;

    closed spec fn view(&self) -> RepoView {
        RepoView {
            owner: self.owner@,
            repo: self.repo@,
            max_files: self.max_files as nat,
            phase: self.phase@,
            branch: self.branch@,
            readme: match self.readme {
                Some(t) => Some(t@),
                None => None,
            },
            paths: texts(self.paths@),
            examples: pairs(self.examples@),
            errors: texts(self.errors@),
        }
    }
}

impl Repo {
    /// The work on the repository `owner`/`repo`, with nothing fetched yet.
    pub fn new(owner: &str, repo: &str, max_files: usize) -> (r: Repo)
        ensures
            r@ == RepoView::initial(owner@, repo@, max_files as nat),
            r@.wf(),
    {
        let r = Repo {
            owner: String::from_str(owner),
            repo: String::from_str(repo),
            max_files,
            phase: Phase::Landing,
            branch: String::from_str("main"),
            readme: None,
            paths: Vec::new(),
            examples: Vec::new(),
            errors: Vec::new(),
        };
        proof {
            let i = RepoView::initial(owner@, repo@, max_files as nat);
            assert(r@.paths =~= i.paths);
            assert(r@.examples =~= i.examples);
            assert(r@.errors =~= i.errors);
        }
        r
    }

    /// The request to perform next; `None` when the work is over.
    pub fn due(&self) -> (r: Option<Request>)
        ensures
            request_view(r) == self@.due(),
    {
        match self.phase {
            Phase::Landing => {
                let mut url = String::from_str("https://github.com/");
                url.append(self.owner.as_str());
                url.append("/");
                url.append(self.repo.as_str());
                Some(request(url, 10))
            },
            Phase::Probe(k) => {
                let guess = if k == 0 {
                    "main"
                } else {
                    "master"
                };
                Some(
                    request(
                        raw_address(self.owner.as_str(), self.repo.as_str(), guess, "README.md"),
                        8,
                    ),
                )
            },
            Phase::Readme(k) => {
                let name = if k == 0 {
                    "README.md"
                } else {
                    "readme.md"
                };
                Some(
                    request(
                        raw_address(
                            self.owner.as_str(),
                            self.repo.as_str(),
                            self.branch.as_str(),
                            name,
                        ),
                        10,
                    ),
                )
            },
            Phase::Listing => {
                let mut url = String::from_str("https://github.com/");
                url.append(self.owner.as_str());
                url.append("/");
                url.append(self.repo.as_str());
                url.append("/tree/");
                url.append(self.branch.as_str());
                url.append("/examples");
                Some(request(url, 10))
            },
            Phase::Files(i) => {
                if i < self.paths.len() && self.examples.len() < self.max_files {
                    let path = to_chars(self.paths[i].as_str());
                    let start = scan(&path, CharClass::Except('/'), 0);
                    let file = to_text(&path, start, path.len());
                    assert(file@ =~= strip_leading(texts(self.paths@)[i as int], '/'));
                    Some(
                        request(
                            raw_address(
                                self.owner.as_str(),
                                self.repo.as_str(),
                                self.branch.as_str(),
                                file.as_str(),
                            ),
                            10,
                        ),
                    )
                } else {
                    None
                }
            },
        }
    }

    /// Takes the outcome of the request that was due.
    pub fn deliver(&mut self, outcome: Outcome)
        requires
            old(self)@.wf(),
        ensures
            final(self)@ == old(self)@.delivered(body_of(outcome), is_success(outcome)),
            final(self)@.wf(),
    {
        proof {
            law_examples_within_budget(self@, body_of(outcome), is_success(outcome));
        }
        match self.phase {
            Phase::Landing => {
                let declared = match &outcome {
                    Outcome::Body(b) => read_declared_branch(b.as_str()),
                    _ => None,
                };
                match declared {
                    Some(branch) => {
                        self.branch = branch;
                        self.phase = Phase::Readme(0);
                    },
                    None => {
                        self.phase = Phase::Probe(0);
                    },
                }
            },
            Phase::Probe(k) => {
                let success = match &outcome {
                    Outcome::Body(_) => true,
                    Outcome::Unreadable(_) => true,
                    _ => false,
                };
                if success {
                    self.branch = if k == 0 {
                        String::from_str("main")
                    } else {
                        String::from_str("master")
                    };
                    self.phase = Phase::Readme(0);
                } else if k == 0 {
                    self.phase = Phase::Probe(1);
                } else {
                    self.branch = String::from_str("main");
                    self.phase = Phase::Readme(0);
                }
            },
            Phase::Readme(k) => {
                match outcome {
                    Outcome::Body(text) => {
                        self.readme = Some(text);
                        self.phase = Phase::Listing;
                    },
                    _ => {
                        if k == 0 {
                            self.phase = Phase::Readme(1);
                        } else {
                            let mut msg = String::from_str(
                                "Could not fetch README from GitHub for ",
                            );
                            msg.append(self.owner.as_str());
                            msg.append("/");
                            msg.append(self.repo.as_str());
                            msg.append(" on branch '");
                            msg.append(self.branch.as_str());
                            msg.append("'");
                            let ghost before = texts(self.errors@);
                            self.errors.push(msg);
                            assert(texts(self.errors@) =~= before.push(msg@));
                            self.phase = Phase::Listing;
                        }
                    },
                }
            },
            Phase::Listing => {
                let found = match &outcome {
                    Outcome::Body(b) => {
                        let links = links_of(b.as_str());
                        list_example_paths(
                            &links,
                            self.owner.as_str(),
                            self.repo.as_str(),
                            self.branch.as_str(),
                        )
                    },
                    _ => {
                        let none: Vec<String> = Vec::new();
                        assert(texts(none@) =~= Seq::<Seq<char>>::empty());
                        none
                    },
                };
                if found.len() == 0 {
                    let mut usual: Vec<String> = Vec::new();
                    usual.push(String::from_str("examples/main.rs"));
                    usual.push(String::from_str("examples/05_astroblasto.rs"));
                    usual.push(String::from_str("examples/simple.rs"));
                    usual.push(String::from_str("examples/brick_breaker.rs"));
                    assert(texts(usual@) =~= usual_examples());
                    self.paths = usual;
                } else {
                    self.paths = found;
                }
                self.phase = Phase::Files(0);
            },
            Phase::Files(i) => {
                if i < self.paths.len() && self.examples.len() < self.max_files {
                    match outcome {
                        Outcome::Body(content) => {
                            let ghost before = pairs(self.examples@);
                            let path = self.paths[i].clone();
                            self.examples.push((path, content));
                            assert(pairs(self.examples@) =~= before.push(
                                (texts(self.paths@)[i as int], content@),
                            ));
                        },
                        _ => {},
                    }
                    self.phase = Phase::Files(i + 1);
                }
            },
        }
    }

    /// The README, the example files and the errors that the work gave.
    pub fn output(self) -> (r: (Option<String>, Vec<(String, String)>, Vec<String>))
        ensures
            match r.0 {
                Some(t) => self@.readme == Some(t@),
                None => self@.readme is None,
            },
            pairs(r.1@) == self@.examples,
            texts(r.2@) == self@.errors,
    {
        (self.readme, self.examples, self.errors)
    }
}

} // verus!
