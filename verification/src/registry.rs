//! The registry's answers: the versions that it lists for a package, the
//! choice among them, the package's own record, and the requests that lead
//! from a package name to its newest version.

use vstd::prelude::*;

use crate::fetch::{body_of, request, request_view, Outcome, Request, RequestView};
use crate::json::{
    fault, flag, items, json_fault, json_flag, json_items, json_member, json_string, member,
    read_text_member, string, text_member,
};
use crate::text::{optional_text, texts};
use crate::version::{
    law_above_chains, law_above_passes, law_not_above_itself, parsed, version_above,
    version_is_greater,
};

verus! {

/// One version that the registry lists for a package.
pub struct VersionCandidate {
    /// The version string.
    pub num: String,
    /// Whether the version was withdrawn.
    pub yanked: bool,
    pub description: Option<String>,
    pub repository: Option<String>,
}

/// A candidate as a value of specifications.
pub struct CandidateView {
    pub num: Seq<char>,
    pub yanked: bool,
    pub description: Option<Seq<char>>,
    pub repository: Option<Seq<char>>,
}

impl View for VersionCandidate {
    type V = CandidateView;

    open spec fn view(&self) -> CandidateView {
        CandidateView {
            num: self.num@,
            yanked: self.yanked,
            description: optional_text(self.description),
            repository: optional_text(self.repository),
        }
    }
}

/// The views of a list of candidates.
pub open spec fn candidates(v: Seq<VersionCandidate>) -> Seq<CandidateView> {
    Seq::new(v.len(), |i: int| v[i]@)
}

/// What is known of a package once its version is settled.
pub struct ResolvedPackage {
    pub version: String,
    pub description: Option<String>,
    /// The address of the repository, or failing that of the documentation.
    pub repository: Option<String>,
}

/// A resolved package as a value of specifications.
pub struct ResolvedView {
    pub version: Seq<char>,
    pub description: Option<Seq<char>>,
    pub repository: Option<Seq<char>>,
}

impl View for ResolvedPackage {
    type V = ResolvedView;

    open spec fn view(&self) -> ResolvedView {
        ResolvedView {
            version: self.version@,
            description: optional_text(self.description),
            repository: optional_text(self.repository),
        }
    }
}

/// The view of a resolved package that may be missing.
pub open spec fn optional_resolved(r: Option<ResolvedPackage>) -> Option<ResolvedView> {
    match r {
        Some(p) => Some(p@),
        None => None,
    }
}

/// The view of the end of a resolution: the package, or the cause of the
/// failure.
pub open spec fn resolution(r: Result<ResolvedPackage, String>) -> Result<ResolvedView, Seq<char>> {
    match r {
        Ok(p) => Ok(p@),
        Err(e) => Err(e@),
    }
}

/// The view of the end of a resolution that may not have ended.
pub open spec fn optional_resolution(r: Option<Result<ResolvedPackage, String>>) -> Option<
    Result<ResolvedView, Seq<char>>,
> {
    match r {
        Some(x) => Some(resolution(x)),
        None => None,
    }
}

/// The first of two optional texts that is there.
pub open spec fn either(a: Option<Seq<char>>, b: Option<Seq<char>>) -> Option<Seq<char>> {
    if a is Some {
        a
    } else {
        b
    }
}

/// The index of the candidate that is chosen: among those that were not
/// withdrawn, the first that none ranks above. `None` where all were
/// withdrawn.
pub open spec fn best_of(c: Seq<CandidateView>) -> Option<int>
    decreases c.len(),
{
    if c.len() == 0 {
        None
    } else {
        let before = best_of(c.drop_last());
        let last = c.len() - 1;
        if c[last].yanked {
            before
        } else {
            match before {
                None => Some(last),
                Some(j) => if version_above(c[last].num, c[j].num) {
                    Some(last)
                } else {
                    Some(j)
                },
            }
        }
    }
}

/// The description of the first candidate that was not withdrawn and has
/// one.
pub open spec fn first_description(c: Seq<CandidateView>) -> Option<Seq<char>>
    decreases c.len(),
{
    if c.len() == 0 {
        None
    } else {
        let before = first_description(c.drop_last());
        if before is Some {
            before
        } else if c.last().yanked {
            None
        } else {
            c.last().description
        }
    }
}

/// The repository of the first candidate that was not withdrawn and has
/// one.
pub open spec fn first_repository(c: Seq<CandidateView>) -> Option<Seq<char>>
    decreases c.len(),
{
    if c.len() == 0 {
        None
    } else {
        let before = first_repository(c.drop_last());
        if before is Some {
            before
        } else if c.last().yanked {
            None
        } else {
            c.last().repository
        }
    }
}

/// What a list of candidates settles: the version of the chosen one, with
/// the first description and the first repository that the list supplies.
pub open spec fn picked(c: Seq<CandidateView>) -> Option<ResolvedView> {
    match best_of(c) {
        Some(i) => Some(
            ResolvedView {
                version: c[i].num,
                description: first_description(c),
                repository: first_repository(c),
            },
        ),
        None => None,
    }
}

/// A withdrawn version is never chosen, whatever its rank: the chosen
/// candidate was not withdrawn, none that was not withdrawn ranks above it,
/// and it ranks above each such candidate that stands before it. None is
/// chosen only where every candidate was withdrawn.
pub proof fn law_withdrawn_never_chosen(c: Seq<CandidateView>)
    ensures
        best_of(c) matches Some(i) ==> {
            &&& 0 <= i < c.len()
            &&& !c[i].yanked
            &&& forall|j: int|
                0 <= j < c.len() && !(#[trigger] c[j]).yanked ==> !version_above(c[j].num, c[i].num)
            &&& forall|j: int|
                0 <= j < i && !(#[trigger] c[j]).yanked ==> version_above(c[i].num, c[j].num)
        },
        best_of(c) is None <==> forall|j: int| 0 <= j < c.len() ==> (#[trigger] c[j]).yanked,
    decreases c.len(),
{
    if c.len() > 0 {
        let shorter = c.drop_last();
        let last = c.len() - 1;
        law_withdrawn_never_chosen(shorter);
        assert forall|j: int| 0 <= j < shorter.len() implies shorter[j] == c[j] by {}
        if c[last].yanked {
            match best_of(shorter) {
                Some(i) => {
                    assert forall|j: int| 0 <= j < c.len() && !(#[trigger] c[j]).yanked implies !version_above(
                        c[j].num,
                        c[i].num,
                    ) by {
                        assert(shorter[j] == c[j]);
                    }
                    assert forall|j: int| 0 <= j < i && !(#[trigger] c[j]).yanked implies version_above(
                        c[i].num,
                        c[j].num,
                    ) by {
                        assert(shorter[j] == c[j]);
                    }
                    assert(!c[i].yanked);
                },
                None => {
                    assert forall|j: int| 0 <= j < c.len() implies (#[trigger] c[j]).yanked by {
                        if j < last {
                            assert(shorter[j] == c[j]);
                        }
                    }
                },
            }
        } else {
            match best_of(shorter) {
                None => {
                    assert forall|j: int| 0 <= j < c.len() && !(#[trigger] c[j]).yanked implies !version_above(
                        c[j].num,
                        c[last].num,
                    ) by {
                        if j < last {
                            assert(shorter[j].yanked);
                        } else {
                            law_not_above_itself(parsed(c[last].num));
                        }
                    }
                    assert forall|j: int| 0 <= j < last && !(#[trigger] c[j]).yanked implies version_above(
                        c[last].num,
                        c[j].num,
                    ) by {
                        assert(shorter[j].yanked);
                    }
                },
                Some(i) => {
                    assert(shorter[i] == c[i]);
                    if version_above(c[last].num, c[i].num) {
                        assert forall|j: int|
                            0 <= j < c.len() && !(#[trigger] c[j]).yanked implies !version_above(
                            c[j].num,
                            c[last].num,
                        ) by {
                            if j < last {
                                assert(shorter[j] == c[j]);
                                if version_above(c[j].num, c[last].num) {
                                    law_above_chains(
                                        parsed(c[j].num),
                                        parsed(c[last].num),
                                        parsed(c[i].num),
                                    );
                                }
                            } else {
                                law_not_above_itself(parsed(c[last].num));
                            }
                        }
                        assert forall|j: int|
                            0 <= j < last && !(#[trigger] c[j]).yanked implies version_above(
                            c[last].num,
                            c[j].num,
                        ) by {
                            assert(shorter[j] == c[j]);
                            law_above_passes(
                                parsed(c[last].num),
                                parsed(c[i].num),
                                parsed(c[j].num),
                            );
                        }
                    } else {
                        assert forall|j: int|
                            0 <= j < c.len() && !(#[trigger] c[j]).yanked implies !version_above(
                            c[j].num,
                            c[i].num,
                        ) by {
                            if j < last {
                                assert(shorter[j] == c[j]);
                            }
                        }
                        assert forall|j: int|
                            0 <= j < i && !(#[trigger] c[j]).yanked implies version_above(
                            c[i].num,
                            c[j].num,
                        ) by {
                            assert(shorter[j] == c[j]);
                        }
                    }
                },
            }
        }
    }
}

fn copy_text(o: &Option<String>) -> (r: Option<String>)
    ensures
        optional_text(r) == optional_text(*o),
{
    match o {
        Some(s) => Some(s.clone()),
        None => None,
    }
}

fn first_text(a: Option<String>, b: Option<String>) -> (r: Option<String>)
    ensures
        optional_text(r) == either(optional_text(a), optional_text(b)),
{
    if a.is_some() {
        a
    } else {
        b
    }
}

/// Chooses among the candidates that the registry lists.
pub fn select_best_version(cands: &Vec<VersionCandidate>) -> (r: Option<ResolvedPackage>)
    ensures
        optional_resolved(r) == picked(candidates(cands@)),
{
    let ghost c = candidates(cands@);
    let mut best: Option<usize> = None;
    let mut description: Option<String> = None;
    let mut repository: Option<String> = None;
    let mut i: usize = 0;
    assert(c.take(0) =~= Seq::<CandidateView>::empty());
    while i < cands.len()
        invariant
            i <= cands.len(),
            c == candidates(cands@),
            match best {
                Some(j) => best_of(c.take(i as int)) == Some(j as int) && j < i,
                None => best_of(c.take(i as int)) is None,
            },
            optional_text(description) == first_description(c.take(i as int)),
            optional_text(repository) == first_repository(c.take(i as int)),
        decreases cands.len() - i,
    {
        assert(c.take(i + 1).drop_last() =~= c.take(i as int));
        assert(c.take(i + 1).last() == cands@[i as int]@);
        if !cands[i].yanked {
            match best {
                None => {
                    best = Some(i);
                },
                Some(j) => {
                    assert(c.take(i + 1)[j as int] == cands@[j as int]@);
                    if version_is_greater(cands[i].num.as_str(), cands[j].num.as_str()) {
                        best = Some(i);
                    }
                },
            }
            if repository.is_none() {
                repository = copy_text(&cands[i].repository);
            }
            if description.is_none() {
                description = copy_text(&cands[i].description);
            }
        }
        i += 1;
    }
    assert(c.take(cands.len() as int) =~= c);
    match best {
        Some(j) => Some(ResolvedPackage { version: cands[j].num.clone(), description, repository }),
        None => None,
    }
}

/// The candidate that one entry of the registry's list writes; none where
/// the entry has no version string. An entry that does not say whether it
/// was withdrawn counts as not withdrawn.
pub open spec fn entry_candidate(entry: Seq<char>) -> Option<CandidateView> {
    match text_member(entry, "num"@) {
        Some(num) => Some(
            CandidateView {
                num,
                yanked: match json_member(entry, "yanked"@) {
                    Some(y) => match json_flag(y) {
                        Some(b) => b,
                        None => false,
                    },
                    None => false,
                },
                description: text_member(entry, "description"@),
                repository: match json_member(entry, "links"@) {
                    Some(l) => text_member(l, "repository"@),
                    None => None,
                },
            },
        ),
        None => None,
    }
}

/// The candidates that the entries write, in order.
pub open spec fn listed(entries: Seq<Seq<char>>) -> Seq<CandidateView>
    decreases entries.len(),
{
    if entries.len() == 0 {
        Seq::empty()
    } else {
        let before = listed(entries.drop_last());
        match entry_candidate(entries.last()) {
            Some(c) => before.push(c),
            None => before,
        }
    }
}

/// The candidates that the registry's answer lists; `None` where the answer
/// holds no list of versions.
pub open spec fn listing_of(body: Seq<char>) -> Option<Seq<CandidateView>> {
    match json_member(body, "versions"@) {
        Some(v) => match json_items(v) {
            Some(entries) => Some(listed(entries)),
            None => None,
        },
        None => None,
    }
}

/// The candidate that one entry of the registry's list writes.
pub fn read_candidate(entry: &str) -> (r: Option<VersionCandidate>)
    ensures
        match r {
            Some(c) => entry_candidate(entry@) == Some(c@),
            None => entry_candidate(entry@) is None,
        },
{
    match read_text_member(entry, "num") {
        Some(num) => {
            let yanked = match member(entry, "yanked") {
                Some(y) => match flag(y.as_str()) {
                    Some(b) => b,
                    None => false,
                },
                None => false,
            };
            let description = read_text_member(entry, "description");
            let repository = match member(entry, "links") {
                Some(l) => read_text_member(l.as_str(), "repository"),
                None => None,
            };
            Some(VersionCandidate { num, yanked, description, repository })
        },
        None => None,
    }
}

/// The candidates that the registry's answer lists.
pub fn read_listing(body: &str) -> (r: Option<Vec<VersionCandidate>>)
    ensures
        match r {
            Some(v) => listing_of(body@) == Some(candidates(v@)),
            None => listing_of(body@) is None,
        },
{
    let versions = match member(body, "versions") {
        Some(v) => v,
        None => {
            return None;
        },
    };
    let entries = match items(versions.as_str()) {
        Some(e) => e,
        None => {
            return None;
        },
    };
    let mut out: Vec<VersionCandidate> = Vec::new();
    let mut i: usize = 0;
    let ghost all = texts(entries@);
    assert(all.take(0) =~= Seq::<Seq<char>>::empty());
    assert(candidates(out@) =~= Seq::<CandidateView>::empty());
    while i < entries.len()
        invariant
            i <= entries.len(),
            all == texts(entries@),
            candidates(out@) == listed(all.take(i as int)),
        decreases entries.len() - i,
    {
        assert(all.take(i + 1).drop_last() =~= all.take(i as int));
        assert(all.take(i + 1).last() == entries@[i as int]@);
        match read_candidate(entries[i].as_str()) {
            Some(c) => {
                let ghost before = candidates(out@);
                out.push(c);
                assert(candidates(out@) =~= before.push(c@));
            },
            None => {},
        }
        i += 1;
    }
    assert(all.take(entries.len() as int) =~= all);
    Some(out)
}

/// The registry's own record of a package.
pub struct CrateRecord {
    /// Why the answer is no JSON text, if it is none.
    pub fault: Option<String>,
    /// Whether the answer holds a record at all.
    pub found: bool,
    /// The version that the record calls the latest.
    pub latest: Option<String>,
    pub description: Option<String>,
    pub repository: Option<String>,
    pub documentation: Option<String>,
}

/// A record as a value of specifications.
pub struct RecordView {
    pub fault: Option<Seq<char>>,
    pub found: bool,
    pub latest: Option<Seq<char>>,
    pub description: Option<Seq<char>>,
    pub repository: Option<Seq<char>>,
    pub documentation: Option<Seq<char>>,
}

impl View for CrateRecord {
    type V = RecordView;

    open spec fn view(&self) -> RecordView {
        RecordView {
            fault: optional_text(self.fault),
            found: self.found,
            latest: optional_text(self.latest),
            description: optional_text(self.description),
            repository: optional_text(self.repository),
            documentation: optional_text(self.documentation),
        }
    }
}

/// The record that the registry's answer writes. The latest version is the
/// record's largest version if it names one, else its newest.
pub open spec fn record_of(body: Seq<char>) -> RecordView {
    match json_member(body, "crate"@) {
        Some(c) => RecordView {
            fault: json_fault(body),
            found: true,
            latest: match json_member(c, "max_version"@) {
                Some(m) => json_string(m),
                None => text_member(c, "newest_version"@),
            },
            description: text_member(c, "description"@),
            repository: text_member(c, "repository"@),
            documentation: text_member(c, "documentation"@),
        },
        None => RecordView {
            fault: json_fault(body),
            found: false,
            latest: None,
            description: None,
            repository: None,
            documentation: None,
        },
    }
}

/// The record that the registry's answer writes.
pub fn read_record(body: &str) -> (r: CrateRecord)
    ensures
        r@ == record_of(body@),
{
    let fault = fault(body);
    match member(body, "crate") {
        Some(c) => {
            let latest = match member(c.as_str(), "max_version") {
                Some(m) => string(m.as_str()),
                None => read_text_member(c.as_str(), "newest_version"),
            };
            CrateRecord {
                fault,
                found: true,
                latest,
                description: read_text_member(c.as_str(), "description"),
                repository: read_text_member(c.as_str(), "repository"),
                documentation: read_text_member(c.as_str(), "documentation"),
            }
        },
        None => CrateRecord {
            fault,
            found: false,
            latest: None,
            description: None,
            repository: None,
            documentation: None,
        },
    }
}

/// What the list settled, with what the record adds: the record supplies the
/// description and the repository where the list had none, and its
/// documentation address where neither has a repository.
pub open spec fn backfilled(p: ResolvedView, r: RecordView) -> ResolvedView {
    ResolvedView {
        version: p.version,
        description: either(p.description, r.description),
        repository: either(either(p.repository, r.repository), r.documentation),
    }
}

/// What the record alone settles, or why it settles nothing.
pub open spec fn from_record(crate_name: Seq<char>, r: RecordView) -> Result<
    ResolvedView,
    Seq<char>,
> {
    match r.fault {
        Some(e) => Err("invalid JSON from crates.io for '"@ + crate_name + "': "@ + e),
        None => if !r.found {
            Err("unexpected crates.io shape for '"@ + crate_name + "'"@)
        } else {
            match r.latest {
                Some(version) => Ok(
                    ResolvedView {
                        version,
                        description: r.description,
                        repository: either(r.repository, r.documentation),
                    },
                ),
                None => Err("could not determine latest version for '"@ + crate_name + "'"@),
            }
        },
    }
}

/// What the request for the record settles, by its outcome.
pub open spec fn from_record_outcome(crate_name: Seq<char>, o: Outcome) -> Result<
    ResolvedView,
    Seq<char>,
> {
    match o {
        Outcome::TimedOut => Err("timeout fetching crates.io for '"@ + crate_name + "'"@),
        Outcome::Failed(e) => Err(
            "network error fetching crates.io for '"@ + crate_name + "': "@ + e@,
        ),
        Outcome::Refused(status) => Err(
            "crates.io returned "@ + status@ + " for '"@ + crate_name + "'"@,
        ),
        Outcome::Unreadable(e) => Err(
            "invalid JSON from crates.io for '"@ + crate_name + "': "@ + e@,
        ),
        Outcome::Body(b) => from_record(crate_name, record_of(b@)),
    }
}

/// What the list settled, with what the record adds.
pub fn backfill(p: ResolvedPackage, r: CrateRecord) -> (out: ResolvedPackage)
    ensures
        out@ == backfilled(p@, r@),
{
    ResolvedPackage {
        version: p.version,
        description: first_text(p.description, r.description),
        repository: first_text(first_text(p.repository, r.repository), r.documentation),
    }
}

fn framed(head: &str, crate_name: &str, tail: &str) -> (s: String)
    ensures
        s@ == head@ + crate_name@ + tail@,
{
    let mut s = String::from_str(head);
    s.append(crate_name);
    s.append(tail);
    s
}

/// What the record alone settles, or why it settles nothing.
pub fn resolve_from_record(crate_name: &str, r: CrateRecord) -> (out: Result<
    ResolvedPackage,
    String,
>)
    ensures
        resolution(out) == from_record(crate_name@, r@),
{
    match r.fault {
        Some(e) => {
            let mut msg = framed("invalid JSON from crates.io for '", crate_name, "': ");
            msg.append(e.as_str());
            Err(msg)
        },
        None => {
            if !r.found {
                Err(framed("unexpected crates.io shape for '", crate_name, "'"))
            } else {
                match r.latest {
                    Some(version) => Ok(
                        ResolvedPackage {
                            version,
                            description: r.description,
                            repository: first_text(r.repository, r.documentation),
                        },
                    ),
                    None => Err(
                        framed("could not determine latest version for '", crate_name, "'"),
                    ),
                }
            }
        },
    }
}

/// What the request for the record settles, by its outcome.
pub fn resolve_from_outcome(crate_name: &str, outcome: Outcome) -> (out: Result<
    ResolvedPackage,
    String,
>)
    ensures
        resolution(out) == from_record_outcome(crate_name@, outcome),
{
    match outcome {
        Outcome::TimedOut => Err(framed("timeout fetching crates.io for '", crate_name, "'")),
        Outcome::Failed(e) => {
            let mut msg = framed("network error fetching crates.io for '", crate_name, "': ");
            msg.append(e.as_str());
            Err(msg)
        },
        Outcome::Refused(status) => {
            let mut msg = String::from_str("crates.io returned ");
            msg.append(status.as_str());
            msg.append(" for '");
            msg.append(crate_name);
            msg.append("'");
            Err(msg)
        },
        Outcome::Unreadable(e) => {
            let mut msg = framed("invalid JSON from crates.io for '", crate_name, "': ");
            msg.append(e.as_str());
            Err(msg)
        },
        Outcome::Body(b) => resolve_from_record(crate_name, read_record(b.as_str())),
    }
}

/// Where a resolution stands.
#[derive(Clone, Copy, Debug)]
pub enum ResolverPhase {
    /// The list of versions is asked for.
    Listing,
    /// The list gave a version; the record is asked for what the list lacks.
    Backfill,
    /// The list gave no version; the record is asked for the latest one.
    Record,
    /// The resolution has ended.
    Done,
}

/// The state of a resolution.
pub struct ResolverView {
    pub crate_name: Seq<char>,
    pub phase: ResolverPhase,
    /// What the list of versions settled.
    pub picked: Option<ResolvedView>,
    /// How the resolution ended.
    pub result: Option<Result<ResolvedView, Seq<char>>>,
}

/// The address of the registry's list of the versions of a package.
pub open spec fn versions_url(crate_name: Seq<char>) -> Seq<char> {
    "https://crates.io/api/v1/crates/"@ + crate_name + "/versions"@
}

/// The address of the registry's record of a package.
pub open spec fn record_url(crate_name: Seq<char>) -> Seq<char> {
    "https://crates.io/api/v1/crates/"@ + crate_name
}

/// What the answer to the request for the list settles.
pub open spec fn picked_from(body: Option<Seq<char>>) -> Option<ResolvedView> {
    match body {
        Some(b) => match listing_of(b) {
            Some(c) => picked(c),
            None => None,
        },
        None => None,
    }
}

impl ResolverView {
    /// A resolution starts by asking for the list of versions.
    pub open spec fn initial(crate_name: Seq<char>) -> ResolverView {
        ResolverView { crate_name, phase: ResolverPhase::Listing, picked: None, result: None }
    }

    /// What holds of every state that a resolution reaches.
    pub open spec fn wf(self) -> bool {
        &&& self.phase is Backfill <==> self.picked is Some
        &&& self.phase is Done <==> self.result is Some
    }

    /// The request that is due; none when the resolution has ended.
    pub open spec fn due(self) -> Option<RequestView> {
        match self.phase {
            ResolverPhase::Listing => Some(
                RequestView { url: versions_url(self.crate_name), timeout_secs: 12 },
            ),
            ResolverPhase::Backfill => Some(
                RequestView { url: record_url(self.crate_name), timeout_secs: 10 },
            ),
            ResolverPhase::Record => Some(
                RequestView { url: record_url(self.crate_name), timeout_secs: 12 },
            ),
            ResolverPhase::Done => None,
        }
    }

    /// The state after the outcome of the request that was due. Where the
    /// list settles a version, the record is asked for what the list lacks,
    /// and an answer that is no record leaves the list's findings as they
    /// are. Where the list settles none, whatever the cause, the record
    /// alone decides.
    pub open spec fn delivered(self, o: Outcome) -> ResolverView {
        match self.phase {
            ResolverPhase::Listing => match picked_from(body_of(o)) {
                Some(p) => ResolverView {
                    picked: Some(p),
                    phase: ResolverPhase::Backfill,
                    ..self
                },
                None => ResolverView { phase: ResolverPhase::Record, ..self },
            },
            ResolverPhase::Backfill => match self.picked {
                Some(p) => ResolverView {
                    picked: None,
                    phase: ResolverPhase::Done,
                    result: Some(
                        Ok(
                            match body_of(o) {
                                Some(b) => if json_fault(b) is None {
                                    backfilled(p, record_of(b))
                                } else {
                                    p
                                },
                                None => p,
                            },
                        ),
                    ),
                    ..self
                },
                None => self,
            },
            ResolverPhase::Record => ResolverView {
                phase: ResolverPhase::Done,
                result: Some(from_record_outcome(self.crate_name, o)),
                ..self
            },
            ResolverPhase::Done => self,
        }
    }
}

/// A resolution ends after at most two answers, and ends in failure only
/// where the list of versions settled nothing.
pub proof fn law_resolution_ends(s: ResolverView, first: Outcome, second: Outcome)
    requires
        s == ResolverView::initial(s.crate_name),
    ensures
        s.wf(),
        s.delivered(first).wf(),
        s.delivered(first).delivered(second).wf(),
        s.delivered(first).delivered(second).phase is Done,
        picked_from(body_of(first)) is Some ==> (s.delivered(first).delivered(
            second,
        ).result matches Some(Ok(p)) && p.version == picked_from(
            body_of(first),
        )->0.version),
        picked_from(body_of(first)) is None ==> s.delivered(first).delivered(
            second,
        ).result == Some(from_record_outcome(s.crate_name, second)),
{
}

/// No withdrawn version is resolved from the list: where the registry's
/// list settles a version, the resolution ends with the version of a listed
/// candidate that was not withdrawn and that no such candidate ranks above,
/// whatever the record adds.
pub proof fn law_resolved_from_list_is_not_withdrawn(
    s: ResolverView,
    listing: Seq<char>,
    c: Seq<CandidateView>,
    first: Outcome,
    second: Outcome,
)
    requires
        s == ResolverView::initial(s.crate_name),
        body_of(first) == Some(listing),
        listing_of(listing) == Some(c),
        best_of(c) is Some,
    ensures
        s.delivered(first).delivered(second).result matches Some(Ok(p)) && ({
            let i = best_of(c)->0;
            &&& 0 <= i < c.len()
            &&& !c[i].yanked
            &&& p.version == c[i].num
            &&& forall|j: int|
                0 <= j < c.len() && !(#[trigger] c[j]).yanked ==> !version_above(
                    c[j].num,
                    p.version,
                )
        }),
{
    law_withdrawn_never_chosen(c);
}

/// How many answers a resolution still waits for, at most.
pub open spec fn answers_left(p: ResolverPhase) -> int {
    match p {
        ResolverPhase::Listing => 2,
        ResolverPhase::Backfill => 1,
        ResolverPhase::Record => 1,
        ResolverPhase::Done => 0,
    }
}

/// The outcome of a request that was due brings a resolution nearer to its
/// end.
pub proof fn law_outcome_brings_resolution_nearer_end(s: ResolverView, o: Outcome)
    requires
        s.wf(),
        s.due() is Some,
    ensures
        0 <= answers_left(s.delivered(o).phase) < answers_left(s.phase),
        s.delivered(o).wf(),
{
}

/// The resolution of one package name.
pub struct Resolver {
    crate_name: String,
    phase: ResolverPhase,
    picked: Option<ResolvedPackage>,
    result: Option<Result<ResolvedPackage, String>>,
}

impl View for Resolver {
    type V = ResolverView;

    closed spec fn view(&self) -> ResolverView {
        ResolverView {
            crate_name: self.crate_name@,
            phase: self.phase,
            picked: optional_resolved(self.picked),
            result: optional_resolution(self.result),
        }
    }
}

impl Resolver {
    /// A resolution that has asked nothing yet.
    pub fn new(crate_name: &str) -> (r: Resolver)
        ensures
            r@ == ResolverView::initial(crate_name@),
            r@.wf(),
    {
        Resolver {
            crate_name: String::from_str(crate_name),
            phase: ResolverPhase::Listing,
            picked: None,
            result: None,
        }
    }

    /// The request to perform next; `None` when the resolution has ended.
    pub fn due(&self) -> (r: Option<Request>)
        ensures
            request_view(r) == self@.due(),
    {
        match self.phase {
            ResolverPhase::Listing => {
                let mut url = String::from_str("https://crates.io/api/v1/crates/");
                url.append(self.crate_name.as_str());
                url.append("/versions");
                Some(request(url, 12))
            },
            ResolverPhase::Backfill => {
                let mut url = String::from_str("https://crates.io/api/v1/crates/");
                url.append(self.crate_name.as_str());
                Some(request(url, 10))
            },
            ResolverPhase::Record => {
                let mut url = String::from_str("https://crates.io/api/v1/crates/");
                url.append(self.crate_name.as_str());
                Some(request(url, 12))
            },
            ResolverPhase::Done => None,
        }
    }

    /// Takes the outcome of the request that was due.
    pub fn deliver(&mut self, outcome: Outcome)
        requires
            old(self)@.wf(),
        ensures
            final(self)@ == old(self)@.delivered(outcome),
            final(self)@.wf(),
    {
        match self.phase {
            ResolverPhase::Listing => {
                let found = match &outcome {
                    Outcome::Body(b) => match read_listing(b.as_str()) {
                        Some(cands) => select_best_version(&cands),
                        None => None,
                    },
                    _ => None,
                };
                match found {
                    Some(p) => {
                        self.picked = Some(p);
                        self.phase = ResolverPhase::Backfill;
                    },
                    None => {
                        self.phase = ResolverPhase::Record;
                    },
                }
            },
            ResolverPhase::Backfill => {
                match self.picked.take() {
                    Some(p) => {
                        let full = match &outcome {
                            Outcome::Body(b) => {
                                let record = read_record(b.as_str());
                                if record.fault.is_none() {
                                    backfill(p, record)
                                } else {
                                    p
                                }
                            },
                            _ => p,
                        };
                        self.result = Some(Ok(full));
                        self.phase = ResolverPhase::Done;
                    },
                    None => {},
                }
            },
            ResolverPhase::Record => {
                self.result = Some(resolve_from_outcome(self.crate_name.as_str(), outcome));
                self.phase = ResolverPhase::Done;
            },
            ResolverPhase::Done => {},
        }
    }

    /// How the resolution ended; `None` while it has not.
    pub fn finish(self) -> (r: Option<Result<ResolvedPackage, String>>)
        ensures
            optional_resolution(r) == self@.result,
    {
        self.result
    }
}

} // verus!
