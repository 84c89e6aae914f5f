//! Character-level text operations, stated over `Seq<char>`.
//!
//! Every routine of the library that inspects text works on the characters of
//! a string, held in a `Vec<char>`, and is specified by one of the spec
//! functions of this module.

use vstd::prelude::*;

verus! {

/// Whether `c` is white space: one of the characters that Unicode gives the
/// property White_Space.
pub open spec fn is_space(c: char) -> bool {
    ('\u{9}' <= c && c <= '\u{d}') || c == ' ' || c == '\u{85}' || c == '\u{a0}' || c == '\u{1680}'
        || ('\u{2000}' <= c && c <= '\u{200a}') || c == '\u{2028}' || c == '\u{2029}' || c
        == '\u{202f}' || c == '\u{205f}' || c == '\u{3000}'
}

/// Whether `c` is a letter, as `char::is_alphabetic` reports it.
pub uninterp spec fn is_letter(c: char) -> bool;

/// `char::is_alphabetic` of std: the answer is a function of the character
/// alone, named `is_letter`.
pub assume_specification[ char::is_alphabetic ](c: char) -> (b: bool)
    ensures
        b == is_letter(c),
;

/// `String::push` of std appends one character to the string.
pub assume_specification[ String::push ](s: &mut String, c: char)
    ensures
        final(s)@ == old(s)@.push(c),
;

/// An ASCII decimal digit.
pub open spec fn is_digit(c: char) -> bool {
    '0' <= c && c <= '9'
}

/// A set of characters that a scan looks for.
#[derive(Clone, Copy, Debug)]
pub enum CharClass {
    /// The one character given.
    Only(char),
    /// Every character but the one given.
    Except(char),
    /// Everything but white space.
    NonSpace,
    /// Everything but the ASCII decimal digits.
    NonDigit,
}

/// Whether `c` is one of the characters of `k`.
pub open spec fn in_class(k: CharClass, c: char) -> bool {
    match k {
        CharClass::Only(x) => c == x,
        CharClass::Except(x) => c != x,
        CharClass::NonSpace => !is_space(c),
        CharClass::NonDigit => !is_digit(c),
    }
}

/// The least index at or after `from` whose character is in `k`; the length
/// of `s` where there is none.
pub open spec fn first_in(s: Seq<char>, k: CharClass, from: int) -> int
    decreases s.len() - from,
{
    if from < 0 || from >= s.len() {
        s.len() as int
    } else if in_class(k, s[from]) {
        from
    } else {
        first_in(s, k, from + 1)
    }
}

/// One more than the greatest index below `to` whose character is in `k`;
/// zero where there is none.
pub open spec fn end_of_last(s: Seq<char>, k: CharClass, to: int) -> int
    decreases to,
{
    if to <= 0 || to > s.len() {
        0
    } else if in_class(k, s[to - 1]) {
        to
    } else {
        end_of_last(s, k, to - 1)
    }
}

/// `s` without the white space at either end.
pub open spec fn trim(s: Seq<char>) -> Seq<char> {
    let b = first_in(s, CharClass::NonSpace, 0);
    let e = end_of_last(s, CharClass::NonSpace, s.len() as int);
    if b < e {
        s.subrange(b, e)
    } else {
        Seq::empty()
    }
}

/// `s` without the run of `c` that it starts with.
pub open spec fn strip_leading(s: Seq<char>, c: char) -> Seq<char> {
    s.skip(first_in(s, CharClass::Except(c), 0))
}

/// `s` without the run of `c` that it ends with.
pub open spec fn strip_trailing(s: Seq<char>, c: char) -> Seq<char> {
    s.take(end_of_last(s, CharClass::Except(c), s.len() as int))
}

/// Whether `needle` stands in `hay` at index `i`.
pub open spec fn matches_at(hay: Seq<char>, needle: Seq<char>, i: int) -> bool {
    0 <= i && i + needle.len() <= hay.len() && hay.subrange(i, i + needle.len()) == needle
}

/// The least index at or after `from` at which `needle` stands in `hay`; the
/// length of `hay` plus one where there is none.
pub open spec fn first_match(hay: Seq<char>, needle: Seq<char>, from: int) -> int
    decreases hay.len() - from + 1,
{
    if from < 0 || from + needle.len() > hay.len() {
        hay.len() as int + 1
    } else if matches_at(hay, needle, from) {
        from
    } else {
        first_match(hay, needle, from + 1)
    }
}

/// Whether `needle` occurs somewhere in `hay`.
pub open spec fn has_sub(hay: Seq<char>, needle: Seq<char>) -> bool {
    first_match(hay, needle, 0) <= hay.len()
}

/// Whether `s` starts with `p`.
pub open spec fn starts_with(s: Seq<char>, p: Seq<char>) -> bool {
    matches_at(s, p, 0)
}

/// Whether `s` ends with `p`.
pub open spec fn ends_with(s: Seq<char>, p: Seq<char>) -> bool {
    matches_at(s, p, s.len() - p.len())
}

/// The pieces of `s` between the occurrences of `c`: one more piece than
/// there are occurrences.
pub open spec fn split(s: Seq<char>, c: char) -> Seq<Seq<char>>
    decreases s.len(),
{
    if s.len() == 0 {
        seq![Seq::empty()]
    } else {
        let before = split(s.drop_last(), c);
        if s.last() == c {
            before.push(Seq::empty())
        } else {
            before.drop_last().push(before.last().push(s.last()))
        }
    }
}

/// The maximal runs of characters of `s` that are not white space.
pub open spec fn words(s: Seq<char>) -> Seq<Seq<char>>
    decreases s.len(),
{
    if s.len() == 0 {
        Seq::empty()
    } else {
        let before = words(s.drop_last());
        if is_space(s.last()) {
            before
        } else if s.len() >= 2 && !is_space(s[s.len() - 2]) && before.len() > 0 {
            before.drop_last().push(before.last().push(s.last()))
        } else {
            before.push(seq![s.last()])
        }
    }
}

/// The parts, with `sep` between each two neighbours.
pub open spec fn join(parts: Seq<Seq<char>>, sep: Seq<char>) -> Seq<char>
    decreases parts.len(),
{
    if parts.len() == 0 {
        Seq::empty()
    } else if parts.len() == 1 {
        parts[0]
    } else {
        join(parts.drop_last(), sep) + sep + parts.last()
    }
}

/// `s` with each run of white space turned into one blank, and none at
/// either end.
pub open spec fn collapse(s: Seq<char>) -> Seq<char> {
    join(words(s), seq![' '])
}

/// `l` without the carriage return that it ends with, if it does.
pub open spec fn strip_cr(l: Seq<char>) -> Seq<char> {
    if l.len() > 0 && l.last() == '\r' {
        l.drop_last()
    } else {
        l
    }
}

/// The lines of `s`. A line ends with a line feed, or with a carriage return
/// and a line feed; what follows the last line feed is a line too, unless it
/// is empty.
pub open spec fn lines(s: Seq<char>) -> Seq<Seq<char>> {
    let pieces = split(s, '\n');
    let ended = Seq::new((pieces.len() - 1) as nat, |i: int| strip_cr(pieces[i]));
    if pieces.last().len() > 0 {
        ended.push(pieces.last())
    } else {
        ended
    }
}

/// The views of the strings of `v`.
pub open spec fn texts(v: Seq<String>) -> Seq<Seq<char>> {
    Seq::new(v.len(), |i: int| v[i]@)
}

/// The view of an optional string.
pub open spec fn optional_text(o: Option<String>) -> Option<Seq<char>> {
    match o {
        Some(s) => Some(s@),
        None => None,
    }
}

/// The views of the character vectors of `v`.
pub open spec fn runs(v: Seq<Vec<char>>) -> Seq<Seq<char>> {
    Seq::new(v.len(), |i: int| v[i]@)
}

/// What `first_in` finds: no character of `k` stands between `from` and the
/// index found, and one stands at the index found unless that is the end.
pub proof fn lemma_first_in(s: Seq<char>, k: CharClass, from: int)
    requires
        0 <= from <= s.len(),
    ensures
        from <= first_in(s, k, from) <= s.len(),
        forall|j: int| from <= j < first_in(s, k, from) ==> !in_class(k, #[trigger] s[j]),
        first_in(s, k, from) < s.len() ==> in_class(k, s[first_in(s, k, from)]),
    decreases s.len() - from,
{
    if from < s.len() && !in_class(k, s[from]) {
        lemma_first_in(s, k, from + 1);
    }
}

/// What `end_of_last` finds: no character of `k` stands between the index
/// found and `to`, and one stands just before the index found unless that is
/// the start.
pub proof fn lemma_end_of_last(s: Seq<char>, k: CharClass, to: int)
    requires
        0 <= to <= s.len(),
    ensures
        0 <= end_of_last(s, k, to) <= to,
        forall|j: int| end_of_last(s, k, to) <= j < to ==> !in_class(k, #[trigger] s[j]),
        end_of_last(s, k, to) > 0 ==> in_class(k, s[end_of_last(s, k, to) - 1]),
    decreases to,
{
    if to > 0 && !in_class(k, s[to - 1]) {
        lemma_end_of_last(s, k, to - 1);
    }
}

/// Trimming keeps every character that is no white space.
pub proof fn lemma_trim_keeps(s: Seq<char>, c: char)
    requires
        s.contains(c),
        !is_space(c),
    ensures
        trim(s).contains(c),
{
    let p = choose|p: int| 0 <= p < s.len() && s[p] == c;
    lemma_first_in(s, CharClass::NonSpace, 0);
    lemma_end_of_last(s, CharClass::NonSpace, s.len() as int);
    let b = first_in(s, CharClass::NonSpace, 0);
    let e = end_of_last(s, CharClass::NonSpace, s.len() as int);
    assert(b <= p) by {
        if p < b {
            assert(!in_class(CharClass::NonSpace, s[p]));
        }
    }
    assert(p < e) by {
        if e <= p {
            assert(!in_class(CharClass::NonSpace, s[p]));
        }
    }
    assert(trim(s)[p - b] == c);
}

/// Splitting loses no character but the separator: a character of `s` that
/// is not `sep` stands in one of the pieces.
pub proof fn lemma_split_covers(s: Seq<char>, sep: char, c: char) -> (j: int)
    requires
        s.contains(c),
        c != sep,
    ensures
        0 <= j < split(s, sep).len(),
        split(s, sep)[j].contains(c),
    decreases s.len(),
{
    lemma_split_not_empty(s.drop_last(), sep);
    let before = split(s.drop_last(), sep);
    if s.last() == c {
        let piece = before.last().push(c);
        assert(piece[piece.len() - 1] == c);
        split(s, sep).len() - 1
    } else {
        let p = choose|p: int| 0 <= p < s.len() && s[p] == c;
        assert(s.drop_last()[p] == c);
        let j = lemma_split_covers(s.drop_last(), sep, c);
        if s.last() != sep && j == before.len() - 1 {
            let q = choose|q: int| 0 <= q < before[j].len() && before[j][q] == c;
            assert(before.last().push(s.last())[q] == c);
        }
        j
    }
}

/// Splitting gives at least one piece.
pub proof fn lemma_split_not_empty(s: Seq<char>, sep: char)
    ensures
        split(s, sep).len() >= 1,
    decreases s.len(),
{
    if s.len() > 0 {
        lemma_split_not_empty(s.drop_last(), sep);
    }
}

/// The lines of a text lose no character but line feeds and carriage
/// returns: any other character of `s` stands in one of its lines.
pub proof fn lemma_lines_cover(s: Seq<char>, c: char) -> (j: int)
    requires
        s.contains(c),
        c != '\n',
        c != '\r',
    ensures
        0 <= j < lines(s).len(),
        lines(s)[j].contains(c),
{
    let pieces = split(s, '\n');
    let j = lemma_split_covers(s, '\n', c);
    let q = choose|q: int| 0 <= q < pieces[j].len() && pieces[j][q] == c;
    if j < pieces.len() - 1 {
        assert(strip_cr(pieces[j])[q] == c);
    }
    j
}

/// Joining loses no character: a character of one of the parts stands in
/// the whole.
pub proof fn lemma_join_covers(parts: Seq<Seq<char>>, sep: Seq<char>, j: int, c: char)
    requires
        0 <= j < parts.len(),
        parts[j].contains(c),
    ensures
        join(parts, sep).contains(c),
    decreases parts.len(),
{
    if parts.len() > 1 {
        let head = join(parts.drop_last(), sep);
        let whole = join(parts, sep);
        if j == parts.len() - 1 {
            let q = choose|q: int| 0 <= q < parts[j].len() && parts[j][q] == c;
            assert(whole[head.len() + sep.len() + q] == c);
        } else {
            assert(parts.drop_last()[j] == parts[j]);
            lemma_join_covers(parts.drop_last(), sep, j, c);
            let q = choose|q: int| 0 <= q < head.len() && head[q] == c;
            assert(whole[q] == c);
        }
    }
}

/// What is left after trimming neither starts nor ends with white space.
pub proof fn law_trim_leaves_no_white_space_at_ends(s: Seq<char>)
    ensures
        trim(s).len() > 0 ==> !is_space(trim(s)[0]) && !is_space(trim(s).last()),
        trim(s).len() <= s.len(),
{
    lemma_first_in(s, CharClass::NonSpace, 0);
    lemma_end_of_last(s, CharClass::NonSpace, s.len() as int);
}

/// Splitting loses nothing: the pieces, joined with the separator again,
/// are the text that was split.
pub proof fn law_join_undoes_split(s: Seq<char>, c: char)
    ensures
        join(split(s, c), seq![c]) == s,
    decreases s.len(),
{
    if s.len() == 0 {
        assert(join(split(s, c), seq![c]) =~= s);
    } else {
        let before = split(s.drop_last(), c);
        lemma_split_not_empty(s.drop_last(), c);
        law_join_undoes_split(s.drop_last(), c);
        let parts = split(s, c);
        if s.last() == c {
            assert(parts.drop_last() =~= before);
            assert(join(parts, seq![c]) =~= s.drop_last() + seq![c] + Seq::<char>::empty());
            assert(join(parts, seq![c]) =~= s);
        } else if before.len() == 1 {
            assert(join(before, seq![c]) == before[0]);
            assert(parts[0] =~= s.drop_last().push(s.last()));
            assert(join(parts, seq![c]) =~= s);
        } else {
            assert(parts.drop_last() =~= before.drop_last());
            assert(join(parts, seq![c]) =~= (join(before.drop_last(), seq![c]) + seq![c]
                + before.last()).push(s.last()));
            assert(join(parts, seq![c]) =~= s);
        }
    }
}

/// A word: at least one character, and none that is white space.
pub open spec fn is_word(w: Seq<char>) -> bool {
    w.len() > 0 && forall|j: int| 0 <= j < w.len() ==> !is_space(#[trigger] w[j])
}

/// Every one of the words of a text is a word.
pub proof fn law_words_are_words(s: Seq<char>)
    ensures
        forall|i: int| 0 <= i < words(s).len() ==> is_word(#[trigger] words(s)[i]),
    decreases s.len(),
{
    if s.len() > 0 {
        law_words_are_words(s.drop_last());
        let before = words(s.drop_last());
        let all = words(s);
        let c = s.last();
        if !is_space(c) {
            assert forall|i: int| 0 <= i < all.len() implies is_word(#[trigger] all[i]) by {
                if i < all.len() - 1 {
                    assert(all[i] == before[i]);
                } else if s.len() >= 2 && !is_space(s[s.len() - 2]) && before.len() > 0 {
                    assert(is_word(before[before.len() - 1]));
                    let w = before.last().push(c);
                    assert(all[i] == w);
                    assert forall|j: int| 0 <= j < w.len() implies !is_space(#[trigger] w[j]) by {
                        if j < w.len() - 1 {
                            assert(w[j] == before.last()[j]);
                        }
                    }
                } else {
                    assert(all[i] == seq![c]);
                }
            }
        }
    }
}

/// The index that `first_in` finds is the only one before which no
/// character of `k` stands and at which one does.
pub proof fn lemma_first_in_is(s: Seq<char>, k: CharClass, from: int, found: int)
    requires
        0 <= from <= found <= s.len(),
        forall|j: int| from <= j < found ==> !in_class(k, #[trigger] s[j]),
        found < s.len() ==> in_class(k, s[found]),
    ensures
        first_in(s, k, from) == found,
    decreases found - from,
{
    if from < found {
        lemma_first_in_is(s, k, from + 1, found);
    }
}

/// The index that `end_of_last` finds is the only one from which on no
/// character of `k` stands and just before which one does.
pub proof fn lemma_end_of_last_is(s: Seq<char>, k: CharClass, to: int, found: int)
    requires
        0 <= found <= to <= s.len(),
        forall|j: int| found <= j < to ==> !in_class(k, #[trigger] s[j]),
        found > 0 ==> in_class(k, s[found - 1]),
    ensures
        end_of_last(s, k, to) == found,
    decreases to - found,
{
    if found < to {
        lemma_end_of_last_is(s, k, to - 1, found);
    }
}

/// Trimming a text that neither starts nor ends with white space changes
/// nothing.
pub proof fn lemma_trim_of_trimmed(s: Seq<char>)
    requires
        s.len() > 0,
        !is_space(s[0]),
        !is_space(s.last()),
    ensures
        trim(s) == s,
{
    assert(s.subrange(0, s.len() as int) =~= s);
}

/// White space around a part of a text does not show after trimming: where
/// all that stands before and after the part is white space, the part and
/// the whole trim to the same.
pub proof fn lemma_trim_of_padded(s: Seq<char>, lo: int, hi: int)
    requires
        0 <= lo <= hi <= s.len(),
        forall|j: int| 0 <= j < lo ==> is_space(#[trigger] s[j]),
        forall|j: int| hi <= j < s.len() ==> is_space(#[trigger] s[j]),
    ensures
        trim(s.subrange(lo, hi)) == trim(s),
{
    let t = s.subrange(lo, hi);
    lemma_first_in(s, CharClass::NonSpace, 0);
    lemma_end_of_last(s, CharClass::NonSpace, s.len() as int);
    lemma_first_in(t, CharClass::NonSpace, 0);
    lemma_end_of_last(t, CharClass::NonSpace, t.len() as int);
    let b = first_in(s, CharClass::NonSpace, 0);
    let e = end_of_last(s, CharClass::NonSpace, s.len() as int);
    if b < e {
        assert(lo <= b) by {
            if b < lo {
                assert(is_space(s[b]));
            }
        }
        assert(e <= hi) by {
            if hi < e {
                assert(is_space(s[e - 1]));
            }
        }
        assert forall|j: int| 0 <= j < b - lo implies !in_class(
            CharClass::NonSpace,
            #[trigger] t[j],
        ) by {
            assert(t[j] == s[lo + j]);
            assert(!in_class(CharClass::NonSpace, s[lo + j]));
        }
        assert(t[b - lo] == s[b]);
        lemma_first_in_is(t, CharClass::NonSpace, 0, b - lo);
        assert forall|j: int| e - lo <= j < t.len() implies !in_class(
            CharClass::NonSpace,
            #[trigger] t[j],
        ) by {
            assert(t[j] == s[lo + j]);
            assert(!in_class(CharClass::NonSpace, s[lo + j]));
        }
        assert(t[e - lo - 1] == s[e - 1]);
        lemma_end_of_last_is(t, CharClass::NonSpace, t.len() as int, e - lo);
        assert(t.subrange(b - lo, e - lo) =~= s.subrange(b, e));
    } else {
        let bt = first_in(t, CharClass::NonSpace, 0);
        let et = end_of_last(t, CharClass::NonSpace, t.len() as int);
        if bt < et {
            assert(t[bt] == s[lo + bt]);
            assert(in_class(CharClass::NonSpace, s[lo + bt]));
            assert(b <= lo + bt) by {
                if lo + bt < b {
                    assert(!in_class(CharClass::NonSpace, s[lo + bt]));
                }
            }
            assert(lo + bt < e) by {
                if e <= lo + bt {
                    assert(!in_class(CharClass::NonSpace, s[lo + bt]));
                }
            }
        }
    }
}

/// The first piece of a split is what stands before the first separator,
/// and it is the only piece exactly where there is no separator.
pub proof fn lemma_split_first(s: Seq<char>, c: char)
    ensures
        split(s, c).len() >= 1,
        split(s, c)[0] == s.take(first_in(s, CharClass::Only(c), 0)),
        split(s, c).len() == 1 <==> first_in(s, CharClass::Only(c), 0) == s.len(),
    decreases s.len(),
{
    lemma_first_in(s, CharClass::Only(c), 0);
    if s.len() == 0 {
        assert(s.take(0) =~= Seq::<char>::empty());
    } else {
        let shorter = s.drop_last();
        let before = split(shorter, c);
        lemma_split_first(shorter, c);
        lemma_first_in(shorter, CharClass::Only(c), 0);
        let f = first_in(shorter, CharClass::Only(c), 0);
        assert forall|j: int| 0 <= j < f implies !in_class(CharClass::Only(c), #[trigger] s[j]) by {
            assert(s[j] == shorter[j]);
            assert(!in_class(CharClass::Only(c), shorter[j]));
        }
        if f < shorter.len() {
            assert(s[f] == shorter[f]);
            lemma_first_in_is(s, CharClass::Only(c), 0, f);
            assert(s.take(f) =~= shorter.take(f));
        } else if s.last() == c {
            lemma_first_in_is(s, CharClass::Only(c), 0, f);
            assert(s.take(f) =~= shorter.take(f));
        } else {
            lemma_first_in_is(s, CharClass::Only(c), 0, s.len() as int);
            assert(shorter.take(f) =~= shorter);
            assert(s.take(s.len() as int) =~= shorter.push(s.last()));
        }
    }
}

/// The last piece of a split is empty exactly where the text is empty or
/// ends with the separator; else it ends with the last character of the
/// text.
pub proof fn lemma_split_last(s: Seq<char>, c: char)
    ensures
        split(s, c).len() >= 1,
        (s.len() == 0 || s.last() == c) ==> split(s, c).last().len() == 0,
        s.len() > 0 && s.last() != c ==> split(s, c).last().len() > 0 && split(
            s,
            c,
        ).last().last() == s.last(),
{
    if s.len() > 0 {
        lemma_split_not_empty(s.drop_last(), c);
    }
}

/// No piece of a split holds the separator.
pub proof fn lemma_split_pieces_lack_separator(s: Seq<char>, c: char)
    ensures
        forall|i: int, j: int|
            0 <= i < split(s, c).len() && 0 <= j < split(s, c)[i].len() ==> #[trigger] split(
                s,
                c,
            )[i][j] != c,
    decreases s.len(),
{
    if s.len() > 0 {
        let before = split(s.drop_last(), c);
        lemma_split_pieces_lack_separator(s.drop_last(), c);
        lemma_split_not_empty(s.drop_last(), c);
        let all = split(s, c);
        assert forall|i: int, j: int| 0 <= i < all.len() && 0 <= j < all[i].len() implies #[trigger] all[i][j]
            != c by {
            if s.last() == c {
                if i < before.len() {
                    assert(all[i][j] == before[i][j]);
                }
            } else {
                if i < before.len() - 1 {
                    assert(all[i][j] == before[i][j]);
                } else if j < before.last().len() {
                    assert(all[i][j] == before[before.len() - 1][j]);
                }
            }
        }
    }
}

/// Whether a carriage return stands right before a line feed somewhere in
/// `s`.
pub open spec fn has_return_before_feed(s: Seq<char>) -> bool {
    exists|i: int| 0 <= i && i + 1 < s.len() && #[trigger] s[i] == '\r' && s[i + 1] == '\n'
}

proof fn lemma_ended_pieces_lack_return(s: Seq<char>)
    requires
        !has_return_before_feed(s),
    ensures
        forall|i: int|
            0 <= i < split(s, '\n').len() - 1 ==> strip_cr(#[trigger] split(s, '\n')[i]) == split(
                s,
                '\n',
            )[i],
    decreases s.len(),
{
    if s.len() > 0 {
        let shorter = s.drop_last();
        let before = split(shorter, '\n');
        assert(!has_return_before_feed(shorter)) by {
            if has_return_before_feed(shorter) {
                let i = choose|i: int|
                    0 <= i && i + 1 < shorter.len() && #[trigger] shorter[i] == '\r' && shorter[i
                        + 1] == '\n';
                assert(s[i] == '\r' && s[i + 1] == '\n');
            }
        }
        lemma_ended_pieces_lack_return(shorter);
        lemma_split_last(shorter, '\n');
        let all = split(s, '\n');
        assert forall|i: int| 0 <= i < all.len() - 1 implies strip_cr(#[trigger] all[i])
            == all[i] by {
            if s.last() == '\n' {
                assert(all[i] == before[i]);
                if i == before.len() - 1 && before[i].len() > 0 {
                    assert(before[i].last() == shorter.last());
                    assert(s[s.len() - 2] == shorter.last());
                    if shorter.last() == '\r' {
                        assert(s[s.len() - 2] == '\r' && s[s.len() - 2 + 1] == '\n');
                    }
                }
            } else {
                assert(all[i] == before[i]);
            }
        }
    }
}

/// The lines of a text that does not end with a line feed, and in which no
/// carriage return stands before a line feed, are its pieces between the
/// line feeds; joined with line feeds again they are the text.
pub proof fn lemma_lines_of_plain_text(s: Seq<char>)
    requires
        s.len() > 0,
        s.last() != '\n',
        !has_return_before_feed(s),
    ensures
        lines(s) == split(s, '\n'),
        join(lines(s), seq!['\n']) == s,
{
    lemma_ended_pieces_lack_return(s);
    lemma_split_last(s, '\n');
    law_join_undoes_split(s, '\n');
    assert(lines(s) =~= split(s, '\n'));
}

/// What is joined starts with its first part, and the separator follows
/// that part where there is a second one.
pub proof fn lemma_join_starts(parts: Seq<Seq<char>>, sep: Seq<char>)
    requires
        parts.len() >= 1,
    ensures
        join(parts, sep).len() >= parts[0].len(),
        join(parts, sep).take(parts[0].len() as int) == parts[0],
        parts.len() >= 2 ==> join(parts, sep).len() >= parts[0].len() + sep.len() && join(
            parts,
            sep,
        ).subrange(parts[0].len() as int, (parts[0].len() + sep.len()) as int) == sep,
    decreases parts.len(),
{
    let whole = join(parts, sep);
    let n = parts[0].len() as int;
    if parts.len() == 1 {
        assert(whole.take(n) =~= parts[0]);
    } else {
        let head = join(parts.drop_last(), sep);
        lemma_join_starts(parts.drop_last(), sep);
        assert(parts.drop_last()[0] == parts[0]);
        assert(whole.take(n) =~= head.take(n));
        if parts.len() == 2 {
            assert(head == parts[0]);
            assert(whole.subrange(n, n + sep.len()) =~= sep);
        } else {
            assert(whole.subrange(n, n + sep.len()) =~= head.subrange(n, n + sep.len()));
        }
    }
}

/// What `first_match` finds: `needle` stands at the index found, if one is
/// found, and nowhere between `from` and that index.
pub proof fn lemma_first_match(hay: Seq<char>, needle: Seq<char>, from: int)
    requires
        0 <= from,
    ensures
        first_match(hay, needle, from) <= hay.len() ==> from <= first_match(hay, needle, from)
            && matches_at(hay, needle, first_match(hay, needle, from)),
        first_match(hay, needle, from) > hay.len() ==> first_match(hay, needle, from) == hay.len()
            + 1,
        forall|j: int|
            from <= j < first_match(hay, needle, from) ==> !#[trigger] matches_at(hay, needle, j),
    decreases hay.len() - from + 1,
{
    if from + needle.len() <= hay.len() && !matches_at(hay, needle, from) {
        lemma_first_match(hay, needle, from + 1);
    }
}

/// The characters of `s`, in order.
pub fn to_chars(s: &str) -> (v: Vec<char>)
    ensures
        v@ == s@,
{
    let mut v: Vec<char> = Vec::new();
    for c in it: s.chars()
        invariant
            v@ == it.seq().take(it.index() as int),
            it.seq() == s@,
    {
        v.push(c);
    }
    v
}

/// The string made of the characters of `v` from `from` up to `to`.
pub fn to_text(v: &Vec<char>, from: usize, to: usize) -> (s: String)
    requires
        from <= to <= v.len(),
    ensures
        s@ == v@.subrange(from as int, to as int),
{
    let mut s = String::new();
    let mut i: usize = from;
    while i < to
        invariant
            from <= i <= to <= v.len(),
            s@ == v@.subrange(from as int, i as int),
        decreases to - i,
    {
        s.push(v[i]);
        i += 1;
    }
    s
}

/// The characters of `v` from `from` up to `to`.
pub fn slice_of(v: &Vec<char>, from: usize, to: usize) -> (r: Vec<char>)
    requires
        from <= to <= v.len(),
    ensures
        r@ == v@.subrange(from as int, to as int),
{
    let mut r: Vec<char> = Vec::new();
    let mut i: usize = from;
    while i < to
        invariant
            from <= i <= to <= v.len(),
            r@ == v@.subrange(from as int, i as int),
        decreases to - i,
    {
        r.push(v[i]);
        i += 1;
    }
    r
}

/// Whether `c` is white space.
pub fn is_white_space(c: char) -> (b: bool)
    ensures
        b == is_space(c),
{
    ('\u{9}' <= c && c <= '\u{d}') || c == ' ' || c == '\u{85}' || c == '\u{a0}' || c == '\u{1680}'
        || ('\u{2000}' <= c && c <= '\u{200a}') || c == '\u{2028}' || c == '\u{2029}' || c
        == '\u{202f}' || c == '\u{205f}' || c == '\u{3000}'
}

/// Whether `c` is one of the characters of `k`.
pub fn class_has(k: CharClass, c: char) -> (b: bool)
    ensures
        b == in_class(k, c),
{
    match k {
        CharClass::Only(x) => c == x,
        CharClass::Except(x) => c != x,
        CharClass::NonSpace => !is_white_space(c),
        CharClass::NonDigit => !('0' <= c && c <= '9'),
    }
}

/// Scans forward from `from` for a character of `k`.
pub fn scan(v: &Vec<char>, k: CharClass, from: usize) -> (r: usize)
    ensures
        r == first_in(v@, k, from as int),
        r <= v.len(),
        from <= v.len() ==> from <= r,
{
    if from >= v.len() {
        return v.len();
    }
    let mut i: usize = from;
    while i < v.len() && !class_has(k, v[i])
        invariant
            from <= i <= v.len(),
            first_in(v@, k, from as int) == first_in(v@, k, i as int),
        decreases v.len() - i,
    {
        i += 1;
    }
    i
}

/// Scans backward from `to` for a character of `k`.
pub fn scan_back(v: &Vec<char>, k: CharClass, to: usize) -> (r: usize)
    ensures
        r == end_of_last(v@, k, to as int),
        r <= to,
{
    if to > v.len() {
        return 0;
    }
    let mut i: usize = to;
    while i > 0 && !class_has(k, v[i - 1])
        invariant
            i <= to <= v.len(),
            end_of_last(v@, k, to as int) == end_of_last(v@, k, i as int),
        decreases i,
    {
        i -= 1;
    }
    i
}

/// The bounds of `v` without the white space at either end.
pub fn trim_bounds(v: &Vec<char>) -> (r: (usize, usize))
    ensures
        r.0 <= r.1 <= v.len(),
        v@.subrange(r.0 as int, r.1 as int) == trim(v@),
{
    let b = scan(v, CharClass::NonSpace, 0);
    let e = scan_back(v, CharClass::NonSpace, v.len());
    if b < e {
        (b, e)
    } else {
        assert(v@.subrange(0, 0) =~= Seq::<char>::empty());
        (0, 0)
    }
}

/// `v` without the white space at either end.
pub fn trimmed(v: &Vec<char>) -> (r: Vec<char>)
    ensures
        r@ == trim(v@),
{
    let (b, e) = trim_bounds(v);
    slice_of(v, b, e)
}

/// Whether `needle` stands in `hay` at index `i`.
pub fn stands_at(hay: &Vec<char>, needle: &Vec<char>, i: usize) -> (b: bool)
    ensures
        b == matches_at(hay@, needle@, i as int),
{
    if needle.len() > hay.len() || i > hay.len() - needle.len() {
        return false;
    }
    let mut j: usize = 0;
    while j < needle.len()
        invariant
            j <= needle.len(),
            i + needle.len() <= hay.len(),
            hay@.subrange(i as int, i + j) == needle@.take(j as int),
        decreases needle.len() - j,
    {
        if hay[i + j] != needle[j] {
            assert(hay@.subrange(i as int, i + needle.len())[j as int] != needle@[j as int]);
            return false;
        }
        assert(hay@.subrange(i as int, i + j + 1) =~= hay@.subrange(i as int, i + j).push(
            hay@[i + j],
        ));
        assert(needle@.take(j + 1) =~= needle@.take(j as int).push(needle@[j as int]));
        j += 1;
    }
    assert(needle@.take(needle.len() as int) =~= needle@);
    true
}

/// The first index at or after `from` at which `needle` stands in `hay`.
pub fn find_sub(hay: &Vec<char>, needle: &Vec<char>, from: usize) -> (r: Option<usize>)
    ensures
        r matches Some(i) ==> i == first_match(hay@, needle@, from as int) && i <= hay.len(),
        r is None ==> first_match(hay@, needle@, from as int) > hay.len(),
{
    if needle.len() > hay.len() || from > hay.len() - needle.len() {
        return None;
    }
    let last: usize = hay.len() - needle.len();
    let mut i: usize = from;
    loop
        invariant
            from <= i <= last,
            last == hay.len() - needle.len(),
            first_match(hay@, needle@, from as int) == first_match(hay@, needle@, i as int),
        decreases last - i,
    {
        if stands_at(hay, needle, i) {
            return Some(i);
        }
        if i == last {
            assert(first_match(hay@, needle@, i + 1) == hay.len() + 1);
            return None;
        }
        i += 1;
    }
}

/// The pieces of `v` between the occurrences of `c`.
pub fn split_on(v: &Vec<char>, c: char) -> (r: Vec<Vec<char>>)
    ensures
        runs(r@) == split(v@, c),
        r.len() >= 1,
{
    let mut done: Vec<Vec<char>> = Vec::new();
    let mut cur: Vec<char> = Vec::new();
    let mut i: usize = 0;
    assert(v@.take(0) =~= Seq::<char>::empty());
    assert(runs(done@).push(cur@) =~= seq![Seq::<char>::empty()]);
    while i < v.len()
        invariant
            i <= v.len(),
            runs(done@).push(cur@) == split(v@.take(i as int), c),
        decreases v.len() - i,
    {
        let ghost before = runs(done@).push(cur@);
        assert(v@.take(i + 1).drop_last() =~= v@.take(i as int));
        if v[i] == c {
            done.push(cur);
            cur = Vec::new();
            assert(runs(done@).push(cur@) =~= before.push(Seq::empty()));
        } else {
            cur.push(v[i]);
            assert(runs(done@).push(cur@) =~= before.drop_last().push(
                before.last().push(v@[i as int]),
            ));
        }
        i += 1;
    }
    assert(v@.take(v.len() as int) =~= v@);
    let ghost before = runs(done@).push(cur@);
    done.push(cur);
    assert(runs(done@) =~= before);
    done
}

/// The maximal runs of characters of `v` that are not white space.
pub fn split_words(v: &Vec<char>) -> (r: Vec<Vec<char>>)
    ensures
        runs(r@) == words(v@),
{
    let mut done: Vec<Vec<char>> = Vec::new();
    let mut cur: Vec<char> = Vec::new();
    let mut in_word: bool = false;
    let mut i: usize = 0;
    assert(v@.take(0) =~= Seq::<char>::empty());
    assert(runs(done@) =~= Seq::<Seq<char>>::empty());
    while i < v.len()
        invariant
            i <= v.len(),
            in_word <==> i > 0 && !is_space(v@[i - 1]),
            in_word ==> words(v@.take(i as int)) == runs(done@).push(cur@),
            !in_word ==> words(v@.take(i as int)) == runs(done@),
        decreases v.len() - i,
    {
        let ghost before = words(v@.take(i as int));
        let ghost shut = runs(done@);
        assert(v@.take(i + 1).drop_last() =~= v@.take(i as int));
        if is_white_space(v[i]) {
            if in_word {
                done.push(cur);
                cur = Vec::new();
                assert(runs(done@) =~= before);
            }
            in_word = false;
        } else {
            if in_word {
                cur.push(v[i]);
                assert(runs(done@).push(cur@) =~= before.drop_last().push(
                    before.last().push(v@[i as int]),
                ));
            } else {
                cur = Vec::new();
                cur.push(v[i]);
                assert(cur@ =~= seq![v@[i as int]]);
            }
            in_word = true;
        }
        i += 1;
    }
    assert(v@.take(v.len() as int) =~= v@);
    if in_word {
        let ghost before = runs(done@).push(cur@);
        done.push(cur);
        assert(runs(done@) =~= before);
    }
    done
}

/// The lines of `v`.
pub fn split_lines(v: &Vec<char>) -> (r: Vec<Vec<char>>)
    ensures
        runs(r@) == lines(v@),
{
    let pieces = split_on(v, '\n');
    let mut out: Vec<Vec<char>> = Vec::new();
    let n: usize = pieces.len() - 1;
    let mut i: usize = 0;
    assert(runs(pieces@).len() == pieces.len());
    while i < n
        invariant
            i <= n,
            n + 1 == pieces.len(),
            runs(pieces@) == split(v@, '\n'),
            out.len() == i,
            forall|j: int| 0 <= j < i ==> (#[trigger] out@[j])@ == strip_cr(split(v@, '\n')[j]),
        decreases n - i,
    {
        let p = &pieces[i];
        assert(runs(pieces@)[i as int] == p@);
        let len = p.len();
        let line = if len > 0 && p[len - 1] == '\r' {
            slice_of(p, 0, len - 1)
        } else {
            slice_of(p, 0, len)
        };
        assert(line@ =~= strip_cr(p@));
        out.push(line);
        i += 1;
    }
    let last = &pieces[n];
    assert(runs(pieces@)[n as int] == last@);
    assert(split(v@, '\n').last() == last@);
    let ghost ended = Seq::new(n as nat, |j: int| strip_cr(split(v@, '\n')[j]));
    assert(runs(out@) =~= ended);
    if last.len() > 0 {
        let whole = slice_of(last, 0, last.len());
        assert(whole@ =~= last@);
        out.push(whole);
        assert(runs(out@) =~= ended.push(last@));
    }
    out
}

/// The parts from index `from` on, with `sep` between each two neighbours.
pub fn join_runs_from(parts: &Vec<Vec<char>>, from: usize, sep: &Vec<char>) -> (r: Vec<char>)
    requires
        from <= parts.len(),
    ensures
        r@ == join(runs(parts@).skip(from as int), sep@),
{
    let mut out: Vec<char> = Vec::new();
    let mut i: usize = from;
    let ghost rest = runs(parts@).skip(from as int);
    assert(rest.take(0) =~= Seq::<Seq<char>>::empty());
    while i < parts.len()
        invariant
            from <= i <= parts.len(),
            rest == runs(parts@).skip(from as int),
            out@ == join(rest.take(i - from), sep@),
        decreases parts.len() - i,
    {
        assert(rest.take(i + 1 - from).drop_last() =~= rest.take(i - from));
        assert(rest.take(i + 1 - from).last() == parts@[i as int]@);
        if i > from {
            out.extend_from_slice(sep.as_slice());
        }
        out.extend_from_slice(parts[i].as_slice());
        assert(out@ =~= join(rest.take(i + 1 - from), sep@));
        i += 1;
    }
    assert(rest.take(parts.len() - from) =~= rest);
    out
}

/// The parts, with `sep` between each two neighbours.
pub fn join_runs(parts: &Vec<Vec<char>>, sep: &Vec<char>) -> (r: Vec<char>)
    ensures
        r@ == join(runs(parts@), sep@),
{
    assert(runs(parts@).skip(0) =~= runs(parts@));
    join_runs_from(parts, 0, sep)
}

/// The strings, with `sep` between each two neighbours.
pub fn join_texts(parts: &Vec<String>, sep: &str) -> (r: String)
    ensures
        r@ == join(texts(parts@), sep@),
{
    let mut out = String::new();
    let mut i: usize = 0;
    assert(texts(parts@).take(0) =~= Seq::<Seq<char>>::empty());
    while i < parts.len()
        invariant
            i <= parts.len(),
            out@ == join(texts(parts@).take(i as int), sep@),
        decreases parts.len() - i,
    {
        assert(texts(parts@).take(i + 1).drop_last() =~= texts(parts@).take(i as int));
        assert(texts(parts@).take(i + 1).last() == parts@[i as int]@);
        if i > 0 {
            out.append(sep);
        }
        out.append(parts[i].as_str());
        assert(out@ =~= join(texts(parts@).take(i + 1), sep@));
        i += 1;
    }
    assert(texts(parts@).take(parts.len() as int) =~= texts(parts@));
    out
}

/// Whether one of the strings of `items` reads `t`.
pub fn holds_text(items: &Vec<String>, t: &String) -> (b: bool)
    ensures
        b == texts(items@).contains(t@),
{
    let mut i: usize = 0;
    while i < items.len()
        invariant
            i <= items.len(),
            forall|j: int| 0 <= j < i ==> texts(items@)[j] != t@,
        decreases items.len() - i,
    {
        if items[i] == *t {
            assert(texts(items@)[i as int] == t@);
            return true;
        }
        i += 1;
    }
    false
}

/// `s` with each run of white space turned into one blank, and none at
/// either end.
pub fn collapsed(v: &Vec<char>) -> (r: Vec<char>)
    ensures
        r@ == collapse(v@),
{
    let ws = split_words(v);
    let mut blank: Vec<char> = Vec::new();
    blank.push(' ');
    assert(blank@ =~= seq![' ']);
    join_runs(&ws, &blank)
}

} // verus!
