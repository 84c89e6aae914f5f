//! Version strings: their numeric segments, their ranking, and the choice of
//! the newest version that was not withdrawn.

use crate::text::{
    first_in, is_digit, runs, scan, slice_of, split, split_on, to_chars, trim, trimmed, CharClass,
};
use vstd::prelude::*;

verus! {

/// The largest number that a segment can stand for: a longer run of digits
/// counts as this number.
pub const SEGMENT_MAX: i64 = 9223372036854775807;

/// The number that a run of decimal digits writes.
pub open spec fn decimal(ds: Seq<char>) -> int
    decreases ds.len(),
{
    if ds.len() == 0 {
        0
    } else {
        decimal(ds.drop_last()) * 10 + (ds.last() as int - '0' as int)
    }
}

/// The digits that a segment starts with.
pub open spec fn leading_digits(seg: Seq<char>) -> Seq<char> {
    seg.take(first_in(seg, CharClass::NonDigit, 0))
}

/// The number of a segment: what its leading digits write, capped at
/// `SEGMENT_MAX`; zero where it starts with no digit.
pub open spec fn segment_number(seg: Seq<char>) -> i64 {
    let n = decimal(leading_digits(seg));
    if n > SEGMENT_MAX {
        SEGMENT_MAX
    } else {
        n as i64
    }
}

/// Whether a segment starts with a decimal digit.
pub open spec fn starts_with_digit(seg: Seq<char>) -> bool {
    seg.len() > 0 && is_digit(seg[0])
}

/// The part of a trimmed version string before its first hyphen.
pub open spec fn version_core(v: Seq<char>) -> Seq<char> {
    let t = trim(v);
    t.take(first_in(t, CharClass::Only('-'), 0))
}

/// Whether something follows the first hyphen of the version string.
pub open spec fn has_tag(v: Seq<char>) -> bool {
    let t = trim(v);
    first_in(t, CharClass::Only('-'), 0) + 1 < t.len()
}

/// The dot-separated segments of the version's core.
pub open spec fn segments(v: Seq<char>) -> Seq<Seq<char>> {
    split(version_core(v), '.')
}

/// The numbers of the version's segments, most significant first.
pub open spec fn numeric_parts(v: Seq<char>) -> Seq<i64> {
    Seq::new(segments(v).len(), |i: int| segment_number(segments(v)[i]))
}

/// A version is a prerelease where a tag follows its first hyphen, or where
/// one of its segments starts with no digit.
pub open spec fn is_prerelease(v: Seq<char>) -> bool {
    has_tag(v) || exists|i: int|
        0 <= i < segments(v).len() && !starts_with_digit(#[trigger] segments(v)[i])
}

/// The `i`-th number of `p`, and zero beyond its end.
pub open spec fn part(p: Seq<i64>, i: int) -> int {
    if 0 <= i < p.len() {
        p[i] as int
    } else {
        0
    }
}

/// The length of the longer of two number sequences.
pub open spec fn longer(a: Seq<i64>, b: Seq<i64>) -> int {
    if a.len() >= b.len() {
        a.len() as int
    } else {
        b.len() as int
    }
}

/// How `a` stands to `b` from index `i` on, both padded with zeros: 1 where
/// `a` is larger at the first index at which they differ, -1 where `b` is,
/// 0 where they do not differ.
pub open spec fn order_from(a: Seq<i64>, b: Seq<i64>, i: int) -> int
    decreases longer(a, b) - i,
{
    if i < 0 || i >= longer(a, b) {
        0
    } else if part(a, i) > part(b, i) {
        1
    } else if part(a, i) < part(b, i) {
        -1
    } else {
        order_from(a, b, i + 1)
    }
}

/// A parsed version ranks above another where its numbers are larger, or
/// where the numbers are the same and it alone is no prerelease.
pub open spec fn outranks(a: (Seq<i64>, bool), b: (Seq<i64>, bool)) -> bool {
    let o = order_from(a.0, b.0, 0);
    o > 0 || (o == 0 && !a.1 && b.1)
}

/// A version string as its numbers and its prerelease flag.
pub open spec fn parsed(v: Seq<char>) -> (Seq<i64>, bool) {
    (numeric_parts(v), is_prerelease(v))
}

/// Whether the version string `a` ranks above the version string `b`.
pub open spec fn version_above(a: Seq<char>, b: Seq<char>) -> bool {
    outranks(parsed(a), parsed(b))
}

proof fn lemma_order_flip(a: Seq<i64>, b: Seq<i64>, i: int)
    requires
        0 <= i,
    ensures
        order_from(a, b, i) == -order_from(b, a, i),
    decreases longer(a, b) - i,
{
    if i < longer(a, b) && part(a, i) == part(b, i) {
        lemma_order_flip(a, b, i + 1);
    }
}

spec fn longest(a: Seq<i64>, b: Seq<i64>, c: Seq<i64>) -> int {
    longer(a, if b.len() >= c.len() {
        b
    } else {
        c
    })
}

proof fn lemma_order_chain(a: Seq<i64>, b: Seq<i64>, c: Seq<i64>, i: int)
    requires
        0 <= i,
    ensures
        order_from(a, b, i) >= 0 && order_from(b, c, i) >= 0 ==> order_from(a, c, i) >= 0,
        order_from(a, b, i) >= 0 && order_from(b, c, i) > 0 ==> order_from(a, c, i) > 0,
        order_from(a, b, i) > 0 && order_from(b, c, i) >= 0 ==> order_from(a, c, i) > 0,
    decreases longest(a, b, c) - i,
{
    if i < longest(a, b, c) && part(a, i) == part(b, i) && part(b, i) == part(c, i) {
        lemma_order_chain(a, b, c, i + 1);
    }
}

/// Where two number sequences, padded with zeros, first differ, the one with
/// the larger number there is the larger one.
pub proof fn law_first_difference_decides(a: Seq<i64>, b: Seq<i64>, i: int)
    requires
        0 <= i,
        part(a, i) > part(b, i),
        forall|j: int| 0 <= j < i ==> part(a, j) == part(b, j),
    ensures
        order_from(a, b, 0) == 1,
        order_from(b, a, 0) == -1,
{
    lemma_order_flip(a, b, 0);
    lemma_decided_from(a, b, i, 0);
}

proof fn lemma_decided_from(a: Seq<i64>, b: Seq<i64>, i: int, k: int)
    requires
        0 <= k <= i,
        part(a, i) > part(b, i),
        forall|j: int| 0 <= j < i ==> part(a, j) == part(b, j),
    ensures
        order_from(a, b, k) == 1,
    decreases i - k,
{
    assert(i < longer(a, b));
    if k < i {
        lemma_decided_from(a, b, i, k + 1);
    }
}

/// Two number sequences that agree at every index, zeros beyond their ends
/// counted, do not differ in rank.
pub proof fn law_same_numbers_tie(a: Seq<i64>, b: Seq<i64>)
    requires
        forall|j: int| 0 <= j ==> part(a, j) == part(b, j),
    ensures
        order_from(a, b, 0) == 0,
{
    lemma_same_from(a, b, 0);
}

proof fn lemma_same_from(a: Seq<i64>, b: Seq<i64>, i: int)
    requires
        0 <= i,
        forall|j: int| 0 <= j ==> part(a, j) == part(b, j),
    ensures
        order_from(a, b, i) == 0,
    decreases longer(a, b) - i,
{
    if i < longer(a, b) {
        lemma_same_from(a, b, i + 1);
    }
}

/// Versions rank by their numbers, not by their spelling: the version with
/// the larger number at the first segment at which the two differ, missing
/// segments counted as zero, ranks above the other, whatever follows.
pub proof fn law_larger_number_ranks_above(a: Seq<char>, b: Seq<char>, i: int)
    requires
        0 <= i,
        part(numeric_parts(a), i) > part(numeric_parts(b), i),
        forall|j: int| 0 <= j < i ==> part(numeric_parts(a), j) == part(numeric_parts(b), j),
    ensures
        version_above(a, b),
        !version_above(b, a),
{
    law_first_difference_decides(numeric_parts(a), numeric_parts(b), i);
}

/// With the same numbers, the version that is no prerelease ranks above the
/// one that is, and never the other way round.
pub proof fn law_release_above_prerelease(a: Seq<char>, b: Seq<char>)
    requires
        forall|j: int| 0 <= j ==> part(numeric_parts(a), j) == part(numeric_parts(b), j),
        !is_prerelease(a),
        is_prerelease(b),
    ensures
        version_above(a, b),
        !version_above(b, a),
{
    law_same_numbers_tie(numeric_parts(a), numeric_parts(b));
    lemma_order_flip(numeric_parts(a), numeric_parts(b), 0);
}

/// No version ranks above itself.
pub proof fn law_not_above_itself(a: (Seq<i64>, bool))
    ensures
        !outranks(a, a),
{
    lemma_order_flip(a.0, a.0, 0);
}

/// Of two versions at most one ranks above the other.
pub proof fn law_above_is_one_way(a: (Seq<i64>, bool), b: (Seq<i64>, bool))
    requires
        outranks(a, b),
    ensures
        !outranks(b, a),
{
    lemma_order_flip(a.0, b.0, 0);
}

/// Ranking above carries over: above one that is above a third is above the
/// third.
pub proof fn law_above_chains(a: (Seq<i64>, bool), b: (Seq<i64>, bool), c: (Seq<i64>, bool))
    requires
        outranks(a, b),
        outranks(b, c),
    ensures
        outranks(a, c),
{
    lemma_order_chain(a.0, b.0, c.0, 0);
    lemma_order_chain(c.0, b.0, a.0, 0);
    lemma_order_flip(a.0, b.0, 0);
    lemma_order_flip(b.0, c.0, 0);
    lemma_order_flip(a.0, c.0, 0);
}

/// A version above one that a third is not above is above the third.
pub proof fn law_above_passes(a: (Seq<i64>, bool), b: (Seq<i64>, bool), c: (Seq<i64>, bool))
    requires
        outranks(a, b),
        !outranks(c, b),
    ensures
        outranks(a, c),
{
    lemma_order_chain(a.0, b.0, c.0, 0);
    lemma_order_chain(c.0, b.0, a.0, 0);
    lemma_order_flip(a.0, b.0, 0);
    lemma_order_flip(b.0, c.0, 0);
    lemma_order_flip(a.0, c.0, 0);
}

fn digit_of(c: char) -> (d: i64)
    requires
        is_digit(c),
    ensures
        d == c as int - '0' as int,
        0 <= d <= 9,
{
    (c as u8 - 48) as i64
}

/// The number of a segment, and whether the segment starts with a digit.
pub fn read_segment(seg: &Vec<char>) -> (r: (i64, bool))
    ensures
        r.0 == segment_number(seg@),
        r.1 == starts_with_digit(seg@),
{
    let mut num: i64 = 0;
    let mut i: usize = 0;
    assert(seg@.take(0) =~= Seq::<char>::empty());
    while i < seg.len() && '0' <= seg[i] && seg[i] <= '9'
        invariant
            i <= seg.len(),
            first_in(seg@, CharClass::NonDigit, 0) == first_in(seg@, CharClass::NonDigit, i as int),
            i > 0 ==> is_digit(seg@[0]),
            0 <= decimal(seg@.take(i as int)),
            decimal(seg@.take(i as int)) > SEGMENT_MAX ==> num == SEGMENT_MAX,
            decimal(seg@.take(i as int)) <= SEGMENT_MAX ==> num == decimal(seg@.take(i as int)),
        decreases seg.len() - i,
    {
        let d = digit_of(seg[i]);
        assert(seg@.take(i + 1).drop_last() =~= seg@.take(i as int));
        assert(decimal(seg@.take(i + 1)) == decimal(seg@.take(i as int)) * 10 + d);
        if num > 922337203685477580 || (num == 922337203685477580 && d > 7) {
            num = SEGMENT_MAX;
        } else {
            num = num * 10 + d;
        }
        i += 1;
    }
    (num, i > 0)
}

/// Splits a version string into the numbers of its segments and a flag that
/// tells a prerelease.
pub fn parse_version_numeric_and_prerelease(v: &str) -> (r: (Vec<i64>, bool))
    ensures
        r.0@ == numeric_parts(v@),
        r.1 == is_prerelease(v@),
{
    let chars = to_chars(v);
    let t = trimmed(&chars);
    let dash = scan(&t, CharClass::Only('-'), 0);
    let core = slice_of(&t, 0, dash);
    let segs = split_on(&core, '.');
    assert(core@ == version_core(v@));
    assert(runs(segs@) == segments(v@));
    let mut prerelease: bool = dash < t.len() && dash + 1 < t.len();
    let mut parts: Vec<i64> = Vec::new();
    let mut i: usize = 0;
    while i < segs.len()
        invariant
            i <= segs.len(),
            runs(segs@) == segments(v@),
            parts.len() == i,
            forall|j: int| 0 <= j < i ==> parts@[j] == segment_number(#[trigger] segments(v@)[j]),
            prerelease <==> has_tag(v@) || exists|j: int|
                0 <= j < i && !starts_with_digit(#[trigger] segments(v@)[j]),
        decreases segs.len() - i,
    {
        assert(runs(segs@)[i as int] == segs@[i as int]@);
        let (num, any) = read_segment(&segs[i]);
        if !any {
            prerelease = true;
        }
        parts.push(num);
        i += 1;
    }
    assert(parts@ =~= numeric_parts(v@));
    (parts, prerelease)
}

fn part_at(p: &Vec<i64>, i: usize) -> (n: i64)
    ensures
        n == part(p@, i as int),
{
    if i < p.len() {
        p[i]
    } else {
        0
    }
}

/// Whether the parsed version `a` ranks above the parsed version `b`.
pub fn ranks_above(a: &(Vec<i64>, bool), b: &(Vec<i64>, bool)) -> (r: bool)
    ensures
        r == outranks((a.0@, a.1), (b.0@, b.1)),
{
    let n: usize = if a.0.len() >= b.0.len() {
        a.0.len()
    } else {
        b.0.len()
    };
    let mut i: usize = 0;
    while i < n
        invariant
            i <= n,
            n == longer(a.0@, b.0@),
            order_from(a.0@, b.0@, 0) == order_from(a.0@, b.0@, i as int),
        decreases n - i,
    {
        let na = part_at(&a.0, i);
        let nb = part_at(&b.0, i);
        if na > nb {
            return true;
        } else if na < nb {
            return false;
        }
        i += 1;
    }
    !a.1 && b.1
}

/// Whether version `a` ranks above version `b`: by their numbers, segment by
/// segment, and with the same numbers by preferring the one that is no
/// prerelease.
pub fn version_is_greater(a: &str, b: &str) -> (r: bool)
    ensures
        r == version_above(a@, b@),
{
    let pa = parse_version_numeric_and_prerelease(a);
    let pb = parse_version_numeric_and_prerelease(b);
    ranks_above(&pa, &pb)
}

} // verus!
