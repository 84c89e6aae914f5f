//! What is taken out of a documentation page: the texts of its links and
//! headings, its code examples, and its main text.

use vstd::prelude::*;

use crate::html::{
    nested_texts, root_texts, select_root_texts, select_texts, selected_texts,
};
use crate::text::{
    collapse, collapsed, end_of_last, find_sub, first_in, first_match, has_return_before_feed,
    has_sub, holds_text, in_class, is_digit, is_letter, is_space, join, join_runs_from,
    join_texts, law_trim_leaves_no_white_space_at_ends, lemma_end_of_last, lemma_first_in,
    lemma_first_in_is, lemma_first_match, lemma_join_covers, lemma_join_starts,
    lemma_lines_cover, lemma_lines_of_plain_text, lemma_split_first, lemma_split_not_empty,
    lemma_split_pieces_lack_separator, lemma_trim_keeps, lemma_trim_of_padded,
    lemma_trim_of_trimmed, lines, runs, scan, split, split_lines, strip_cr, texts, to_chars,
    to_text, trim, trim_bounds, trimmed, CharClass,
};

verus! {

/// A text that, trimmed, is not empty and holds decimal digits only.
pub open spec fn numeric_only(s: Seq<char>) -> bool {
    let t = trim(s);
    t.len() > 0 && forall|i: int| 0 <= i < t.len() ==> is_digit(#[trigger] t[i])
}

/// Whether a text holds a letter.
pub open spec fn has_letter(t: Seq<char>) -> bool {
    exists|i: int| 0 <= i < t.len() && is_letter(#[trigger] t[i])
}

/// The text of an element as an anchor item: its text nodes, joined with
/// blanks and with the white space collapsed.
pub open spec fn anchor_text(nodes: Seq<Seq<char>>) -> Seq<char> {
    collapse(join(nodes, " "@))
}

/// An anchor text is kept where it has at least two characters, is not a
/// number and, with just two characters, holds a letter.
pub open spec fn keeps_anchor(t: Seq<char>) -> bool {
    t.len() >= 2 && !numeric_only(t) && (t.len() >= 3 || has_letter(t))
}

/// The anchor items of a list of elements: in order, the texts that are kept
/// and that did not occur before, until there are `max` of them.
pub open spec fn anchor_items_of(elements: Seq<Seq<Seq<char>>>, max: nat) -> Seq<Seq<char>>
    decreases elements.len(),
{
    if elements.len() == 0 {
        Seq::empty()
    } else {
        let before = anchor_items_of(elements.drop_last(), max);
        let t = anchor_text(elements.last());
        if before.len() < max && keeps_anchor(t) && !before.contains(t) {
            before.push(t)
        } else {
            before
        }
    }
}

/// A line that is dropped from the head of a code example: a blank line, or
/// a number of fewer than eight characters.
pub open spec fn is_header_line(line: Seq<char>) -> bool {
    trim(line).len() == 0 || (trim(line).len() < 8 && numeric_only(line))
}

/// The index of the first line at or after `from` that is no header line.
pub open spec fn first_kept(ls: Seq<Seq<char>>, from: int) -> int
    decreases ls.len() - from,
{
    if from < 0 || from >= ls.len() {
        ls.len() as int
    } else if is_header_line(ls[from]) {
        first_kept(ls, from + 1)
    } else {
        from
    }
}

/// A code example without the header lines that it starts with, trimmed;
/// `None` where nothing is left.
pub open spec fn cleaned(snip: Seq<char>) -> Option<Seq<char>> {
    let ls = lines(snip);
    let body = trim(join(ls.skip(first_kept(ls, 0)), seq!['\n']));
    if body.len() == 0 {
        None
    } else {
        Some(body)
    }
}

/// The text of an element as a code block: its text nodes, joined with line
/// feeds and trimmed.
pub open spec fn block_text(nodes: Seq<Seq<char>>) -> Seq<char> {
    trim(join(nodes, "\n"@))
}

/// Whether a text holds one of the tokens by which source code is known.
pub open spec fn has_marker(t: Seq<char>) -> bool {
    has_sub(t, "fn "@) || has_sub(t, "use "@) || has_sub(t, "let "@) || has_sub(
        t,
        "extern crate"@,
    ) || has_sub(t, "cargo"@) || has_sub(t, "pub fn"@)
}

/// What an element gives as a code snippet, if anything.
pub open spec fn snippet_of(nodes: Seq<Seq<char>>) -> Option<Seq<char>> {
    let t = block_text(nodes);
    if t.len() > 0 && has_marker(t) {
        cleaned(t)
    } else {
        None
    }
}

/// The code snippets of a list of elements: in order, what each element
/// gives, until there are `max` of them.
pub open spec fn code_blocks_of(elements: Seq<Seq<Seq<char>>>, max: nat) -> Seq<Seq<char>>
    decreases elements.len(),
{
    if elements.len() == 0 {
        Seq::empty()
    } else {
        let before = code_blocks_of(elements.drop_last(), max);
        match snippet_of(elements.last()) {
            Some(c) => if before.len() < max {
                before.push(c)
            } else {
                before
            },
            None => before,
        }
    }
}

/// The selector of the elements that give anchor items.
pub const ANCHOR_ELEMENTS: &'static str = "a, span, h1, h2, h3, h4";

/// The selector of the elements that give code snippets.
pub const CODE_ELEMENTS: &'static str = "pre, code, div.example, div.rust";

/// The anchor items of a page: those of its links, spans and headings.
pub open spec fn anchor_items_in(html: Seq<char>, max: nat) -> Seq<Seq<char>> {
    match selected_texts(html, ANCHOR_ELEMENTS@) {
        Some(elements) => anchor_items_of(elements, max),
        None => Seq::empty(),
    }
}

/// The code snippets of a page: those of its preformatted and code elements
/// and of its example divisions.
pub open spec fn code_blocks_in(html: Seq<char>, max: nat) -> Seq<Seq<char>> {
    match selected_texts(html, CODE_ELEMENTS@) {
        Some(elements) => code_blocks_of(elements, max),
        None => Seq::empty(),
    }
}

/// The collapsed text of the first element that a selector matches; empty
/// where it matches none or is no selector.
pub open spec fn first_text(found: Option<Seq<Seq<Seq<char>>>>) -> Seq<char> {
    match found {
        Some(els) => if els.len() > 0 {
            collapse(join(els[0], " "@))
        } else {
            Seq::empty()
        },
        None => Seq::empty(),
    }
}

/// The main text of a page: the first of its main container, its content
/// division, its main division, its article and its body that has text, with
/// the white space collapsed; failing all, the text of the whole document.
pub open spec fn text_aggregate(html: Seq<char>) -> Seq<char> {
    if first_text(selected_texts(html, "main"@)).len() > 0 {
        first_text(selected_texts(html, "main"@))
    } else if first_text(selected_texts(html, "div.content"@)).len() > 0 {
        first_text(selected_texts(html, "div.content"@))
    } else if first_text(selected_texts(html, "div#main"@)).len() > 0 {
        first_text(selected_texts(html, "div#main"@))
    } else if first_text(selected_texts(html, "article"@)).len() > 0 {
        first_text(selected_texts(html, "article"@))
    } else if first_text(selected_texts(html, "body"@)).len() > 0 {
        first_text(selected_texts(html, "body"@))
    } else {
        join(root_texts(html), " "@)
    }
}

/// The anchor items are pairwise different, at most `max`, and each is a
/// text that is kept.
pub proof fn law_anchor_items_distinct(elements: Seq<Seq<Seq<char>>>, max: nat)
    ensures
        anchor_items_of(elements, max).no_duplicates(),
        anchor_items_of(elements, max).len() <= max,
        forall|i: int|
            0 <= i < anchor_items_of(elements, max).len() ==> keeps_anchor(
                #[trigger] anchor_items_of(elements, max)[i],
            ),
    decreases elements.len(),
{
    if elements.len() > 0 {
        law_anchor_items_distinct(elements.drop_last(), max);
    }
}

/// A text that two elements share is listed once: where the text of an
/// element is kept, and the list is not yet full before it, the text stands
/// in the list exactly once.
pub proof fn law_shared_text_listed_once(elements: Seq<Seq<Seq<char>>>, max: nat, k: int)
    requires
        0 <= k < elements.len(),
        keeps_anchor(anchor_text(elements[k])),
        anchor_items_of(elements.take(k), max).len() < max,
    ensures
        anchor_items_of(elements, max).contains(anchor_text(elements[k])),
        anchor_items_of(elements, max).no_duplicates(),
    decreases elements.len(),
{
    law_anchor_items_distinct(elements, max);
    let t = anchor_text(elements[k]);
    if k == elements.len() - 1 {
        assert(elements.take(k) =~= elements.drop_last());
        let before = anchor_items_of(elements.drop_last(), max);
        if before.contains(t) {
            let j = choose|j: int| 0 <= j < before.len() && before[j] == t;
            assert(anchor_items_of(elements, max)[j] == t);
        } else {
            assert(anchor_items_of(elements, max).last() == t);
        }
    } else {
        let shorter = elements.drop_last();
        assert(shorter.take(k) =~= elements.take(k));
        law_shared_text_listed_once(shorter, max, k);
        let before = anchor_items_of(shorter, max);
        let j = choose|j: int| 0 <= j < before.len() && before[j] == t;
        assert(anchor_items_of(elements, max)[j] == t);
    }
}

/// Every code snippet is what an element with a marker token gives, and
/// there are at most `max`.
pub proof fn law_snippets_have_marker(elements: Seq<Seq<Seq<char>>>, max: nat)
    ensures
        code_blocks_of(elements, max).len() <= max,
        forall|i: int|
            0 <= i < code_blocks_of(elements, max).len() ==> exists|k: int|
                0 <= k < elements.len() && has_marker(block_text(elements[k])) && snippet_of(
                    elements[k],
                ) == Some(#[trigger] code_blocks_of(elements, max)[i]),
    decreases elements.len(),
{
    if elements.len() > 0 {
        let shorter = elements.drop_last();
        law_snippets_have_marker(shorter, max);
        let all = code_blocks_of(elements, max);
        assert forall|i: int| 0 <= i < all.len() implies exists|k: int|
            0 <= k < elements.len() && has_marker(block_text(elements[k])) && snippet_of(
                elements[k],
            ) == Some(#[trigger] all[i]) by {
            let before = code_blocks_of(shorter, max);
            if i < before.len() {
                assert(all[i] == before[i]);
                let k = choose|k: int|
                    0 <= k < shorter.len() && has_marker(block_text(shorter[k])) && snippet_of(
                        shorter[k],
                    ) == Some(before[i]);
                assert(shorter[k] == elements[k]);
            } else {
                let k = elements.len() - 1;
                assert(snippet_of(elements[k]) == Some(all[i]));
            }
        }
    }
}

/// An element whose text holds no marker token gives no snippet.
pub proof fn law_no_marker_no_snippet(nodes: Seq<Seq<char>>)
    requires
        !has_marker(block_text(nodes)),
    ensures
        snippet_of(nodes) is None,
{
}

proof fn lemma_first_kept(ls: Seq<Seq<char>>, from: int, j: int)
    requires
        0 <= from <= j < ls.len(),
        !is_header_line(ls[j]),
    ensures
        from <= first_kept(ls, from) <= j,
    decreases j - from,
{
    if from < j && is_header_line(ls[from]) {
        lemma_first_kept(ls, from + 1, j);
    }
}

proof fn lemma_marked_text_survives(t: Seq<char>, c: char)
    requires
        t.contains(c),
        !is_space(c),
        !is_digit(c),
    ensures
        cleaned(t) is Some,
{
    let ls = lines(t);
    let j = lemma_lines_cover(t, c);
    lemma_trim_keeps(ls[j], c);
    let shown = trim(ls[j]);
    let q = choose|q: int| 0 <= q < shown.len() && shown[q] == c;
    assert(!is_digit(shown[q]));
    lemma_first_kept(ls, 0, j);
    let k = first_kept(ls, 0);
    let rest = ls.skip(k);
    assert(rest[j - k] == ls[j]);
    lemma_join_covers(rest, seq!['\n'], j - k, c);
    lemma_trim_keeps(join(rest, seq!['\n']), c);
}

proof fn lemma_marker_leaves_mark(t: Seq<char>, marker: Seq<char>)
    requires
        has_sub(t, marker),
        marker.len() > 0,
    ensures
        t.contains(marker[0]),
{
    lemma_first_match(t, marker, 0);
    let i = first_match(t, marker, 0);
    assert(t.subrange(i, i + marker.len())[0] == marker[0]);
    assert(t[i] == marker[0]);
}

/// An element whose text holds a marker token gives a snippet: cleaning
/// leaves it something.
pub proof fn law_marker_gives_snippet(nodes: Seq<Seq<char>>)
    requires
        has_marker(block_text(nodes)),
    ensures
        snippet_of(nodes) is Some,
{
    let t = block_text(nodes);
    reveal_strlit("fn ");
    reveal_strlit("use ");
    reveal_strlit("let ");
    reveal_strlit("extern crate");
    reveal_strlit("cargo");
    reveal_strlit("pub fn");
    if has_sub(t, "fn "@) {
        lemma_marker_leaves_mark(t, "fn "@);
        lemma_marked_text_survives(t, 'f');
    } else if has_sub(t, "use "@) {
        lemma_marker_leaves_mark(t, "use "@);
        lemma_marked_text_survives(t, 'u');
    } else if has_sub(t, "let "@) {
        lemma_marker_leaves_mark(t, "let "@);
        lemma_marked_text_survives(t, 'l');
    } else if has_sub(t, "extern crate"@) {
        lemma_marker_leaves_mark(t, "extern crate"@);
        lemma_marked_text_survives(t, 'e');
    } else if has_sub(t, "cargo"@) {
        lemma_marker_leaves_mark(t, "cargo"@);
        lemma_marked_text_survives(t, 'c');
    } else {
        lemma_marker_leaves_mark(t, "pub fn"@);
        lemma_marked_text_survives(t, 'p');
    }
}

proof fn lemma_code_blocks_grow(elements: Seq<Seq<Seq<char>>>, max: nat, k: int)
    requires
        0 <= k <= elements.len(),
    ensures
        code_blocks_of(elements.take(k), max).len() <= code_blocks_of(elements, max).len(),
        forall|i: int|
            0 <= i < code_blocks_of(elements.take(k), max).len() ==> code_blocks_of(
                elements,
                max,
            )[i] == #[trigger] code_blocks_of(elements.take(k), max)[i],
    decreases elements.len() - k,
{
    if k < elements.len() {
        let shorter = elements.drop_last();
        assert(shorter.take(k) =~= elements.take(k));
        lemma_code_blocks_grow(shorter, max, k);
    } else {
        assert(elements.take(k) =~= elements);
    }
}

/// An element whose text holds a marker token is among the snippets, unless
/// the list was full before it.
pub proof fn law_marker_block_is_listed(elements: Seq<Seq<Seq<char>>>, max: nat, k: int)
    requires
        0 <= k < elements.len(),
        has_marker(block_text(elements[k])),
        code_blocks_of(elements.take(k), max).len() < max,
    ensures
        snippet_of(elements[k]) is Some,
        code_blocks_of(elements, max).contains(snippet_of(elements[k])->0),
{
    law_marker_gives_snippet(elements[k]);
    let upto = elements.take(k + 1);
    assert(upto.drop_last() =~= elements.take(k));
    assert(upto.last() == elements[k]);
    let listed = code_blocks_of(upto, max);
    assert(listed.last() == snippet_of(elements[k])->0);
    lemma_code_blocks_grow(elements, max, k + 1);
    assert(code_blocks_of(elements, max)[listed.len() - 1] == listed[listed.len() - 1]);
}

proof fn lemma_lines_lack_feed(s: Seq<char>)
    ensures
        forall|i: int, j: int|
            0 <= i < lines(s).len() && 0 <= j < lines(s)[i].len() ==> #[trigger] lines(
                s,
            )[i][j] != '\n',
{
    let pieces = split(s, '\n');
    lemma_split_pieces_lack_separator(s, '\n');
    lemma_split_not_empty(s, '\n');
    let ls = lines(s);
    assert forall|i: int, j: int| 0 <= i < ls.len() && 0 <= j < ls[i].len() implies #[trigger] ls[i][j]
        != '\n' by {
        if i < pieces.len() - 1 {
            assert(ls[i] == strip_cr(pieces[i]));
            assert(ls[i][j] == pieces[i][j]);
        } else {
            assert(ls[i] == pieces[i]);
            assert(ls[i][j] == pieces[i][j]);
        }
    }
}

proof fn lemma_first_kept_is_kept(ls: Seq<Seq<char>>, from: int)
    requires
        0 <= from <= ls.len(),
    ensures
        from <= first_kept(ls, from) <= ls.len(),
        first_kept(ls, from) < ls.len() ==> !is_header_line(ls[first_kept(ls, from)]),
    decreases ls.len() - from,
{
    if from < ls.len() && is_header_line(ls[from]) {
        lemma_first_kept_is_kept(ls, from + 1);
    }
}

proof fn lemma_first_feed_of_join(rest: Seq<Seq<char>>)
    requires
        rest.len() >= 1,
        forall|j: int| 0 <= j < rest[0].len() ==> #[trigger] rest[0][j] != '\n',
    ensures
        first_in(join(rest, seq!['\n']), CharClass::Only('\n'), 0) == rest[0].len(),
        join(rest, seq!['\n']).len() >= rest[0].len(),
        join(rest, seq!['\n']).take(rest[0].len() as int) == rest[0],
{
    let nl = seq!['\n'];
    let whole = join(rest, nl);
    let first = rest[0];
    let n0 = first.len() as int;
    lemma_join_starts(rest, nl);
    assert forall|j: int| 0 <= j < n0 implies !in_class(
        CharClass::Only('\n'),
        #[trigger] whole[j],
    ) by {
        assert(whole.take(n0)[j] == first[j]);
    }
    if rest.len() >= 2 {
        assert(whole.subrange(n0, n0 + 1)[0] == nl[0]);
    }
    lemma_first_in_is(whole, CharClass::Only('\n'), 0, n0);
}

proof fn lemma_first_line_after_trim(whole: Seq<char>, first: Seq<char>)
    requires
        first.len() <= whole.len(),
        whole.take(first.len() as int) == first,
        first_in(whole, CharClass::Only('\n'), 0) == first.len(),
        trim(first).len() > 0,
    ensures
        trim(whole).len() > 0,
        trim(trim(whole).take(first_in(trim(whole), CharClass::Only('\n'), 0))) == trim(first),
{
    let n0 = first.len() as int;
    let b = trim(whole);
    assert forall|j: int| 0 <= j < n0 implies whole[j] == first[j] by {
        assert(whole.take(n0)[j] == first[j]);
    }
    lemma_first_in(whole, CharClass::Only('\n'), 0);
    lemma_first_in(whole, CharClass::NonSpace, 0);
    lemma_end_of_last(whole, CharClass::NonSpace, whole.len() as int);
    let lo = first_in(whole, CharClass::NonSpace, 0);
    let hi = end_of_last(whole, CharClass::NonSpace, whole.len() as int);
    lemma_first_in(first, CharClass::NonSpace, 0);
    lemma_end_of_last(first, CharClass::NonSpace, n0);
    let q = first_in(first, CharClass::NonSpace, 0);
    assert(q < n0 && !is_space(first[q]));
    assert(whole[q] == first[q]);
    assert(lo <= q) by {
        if q < lo {
            assert(!in_class(CharClass::NonSpace, whole[q]));
        }
    }
    assert(q < hi) by {
        if hi <= q {
            assert(!in_class(CharClass::NonSpace, whole[q]));
        }
    }
    assert(b == whole.subrange(lo, hi));
    let m = if hi < n0 {
        hi
    } else {
        n0
    };
    let head = first.subrange(lo, m);
    assert(head =~= whole.subrange(lo, m));
    assert forall|j: int| 0 <= j < lo implies is_space(#[trigger] first[j]) by {
        assert(whole[j] == first[j]);
        assert(!in_class(CharClass::NonSpace, whole[j]));
    }
    assert forall|j: int| m <= j < n0 implies is_space(#[trigger] first[j]) by {
        assert(whole[j] == first[j]);
        assert(!in_class(CharClass::NonSpace, whole[j]));
    }
    lemma_trim_of_padded(first, lo, m);
    assert forall|j: int| 0 <= j < m - lo implies !in_class(
        CharClass::Only('\n'),
        #[trigger] b[j],
    ) by {
        assert(b[j] == whole[lo + j]);
        assert(!in_class(CharClass::Only('\n'), whole[lo + j]));
    }
    if m - lo < b.len() {
        assert(b[m - lo] == whole[n0]);
    }
    lemma_first_in_is(b, CharClass::Only('\n'), 0, m - lo);
    assert(b.take(m - lo) =~= head);
}

/// Cleaning a cleaned block changes nothing, unless a carriage return
/// stands before a line feed in it.
pub proof fn law_cleaning_is_settled(snip: Seq<char>)
    requires
        cleaned(snip) is Some,
        !has_return_before_feed(cleaned(snip)->0),
    ensures
        cleaned(cleaned(snip)->0) == cleaned(snip),
{
    let nl = seq!['\n'];
    let ls = lines(snip);
    let k = first_kept(ls, 0);
    let rest = ls.skip(k);
    let whole = join(rest, nl);
    let b = trim(whole);
    lemma_first_kept_is_kept(ls, 0);
    assert(rest.len() >= 1) by {
        if rest.len() == 0 {
            assert(whole.len() == 0);
        }
    }
    let first = rest[0];
    assert(first == ls[k]);
    lemma_lines_lack_feed(snip);
    lemma_first_feed_of_join(rest);
    lemma_first_line_after_trim(whole, first);
    let head = b.take(first_in(b, CharClass::Only('\n'), 0));
    assert(!is_header_line(head));
    lemma_split_first(b, '\n');
    law_trim_leaves_no_white_space_at_ends(whole);
    lemma_lines_of_plain_text(b);
    let lb = lines(b);
    assert(lb[0] == head);
    assert(first_kept(lb, 0) == 0);
    assert(lb.skip(0) =~= lb);
    lemma_trim_of_trimmed(b);
}

fn numeric_only_chars(v: &Vec<char>) -> (b: bool)
    ensures
        b == numeric_only(v@),
{
    let (from, to) = trim_bounds(v);
    if from == to {
        return false;
    }
    let stop = scan(v, CharClass::NonDigit, from);
    proof {
        lemma_first_in(v@, CharClass::NonDigit, from as int);
        let t = trim(v@);
        if stop >= to {
            assert forall|i: int| 0 <= i < t.len() implies is_digit(#[trigger] t[i]) by {
                assert(t[i] == v@[from + i]);
            }
        } else {
            assert(t[stop - from] == v@[stop as int]);
        }
    }
    stop >= to
}

/// Whether a text, trimmed, is not empty and holds decimal digits only.
pub fn is_numeric_only(s: &str) -> (b: bool)
    ensures
        b == numeric_only(s@),
{
    let v = to_chars(s);
    numeric_only_chars(&v)
}

/// A text with each run of white space turned into one blank, and none at
/// either end.
pub fn normalize_anchor_text(s: &str) -> (r: String)
    ensures
        r@ == collapse(s@),
{
    let v = to_chars(s);
    let c = collapsed(&v);
    to_text(&c, 0, c.len())
}

fn any_letter(v: &Vec<char>) -> (b: bool)
    ensures
        b == has_letter(v@),
{
    let mut i: usize = 0;
    while i < v.len()
        invariant
            i <= v.len(),
            forall|j: int| 0 <= j < i ==> !is_letter(#[trigger] v@[j]),
        decreases v.len() - i,
    {
        if v[i].is_alphabetic() {
            return true;
        }
        i += 1;
    }
    false
}

fn keeps_anchor_chars(t: &Vec<char>) -> (b: bool)
    ensures
        b == keeps_anchor(t@),
{
    if t.len() < 2 {
        return false;
    }
    if numeric_only_chars(t) {
        return false;
    }
    t.len() >= 3 || any_letter(t)
}

/// The anchor items of a list of elements, each given as the list of its
/// text nodes.
pub fn anchor_items(elements: &Vec<Vec<String>>, max_items: usize) -> (r: Vec<String>)
    ensures
        texts(r@) == anchor_items_of(nested_texts(elements@), max_items as nat),
{
    let mut items: Vec<String> = Vec::new();
    let mut i: usize = 0;
    let ghost all = nested_texts(elements@);
    assert(all.take(0) =~= Seq::<Seq<Seq<char>>>::empty());
    assert(texts(items@) =~= Seq::<Seq<char>>::empty());
    while i < elements.len()
        invariant
            i <= elements.len(),
            all == nested_texts(elements@),
            texts(items@) == anchor_items_of(all.take(i as int), max_items as nat),
        decreases elements.len() - i,
    {
        assert(all.take(i + 1).drop_last() =~= all.take(i as int));
        assert(all.take(i + 1).last() == texts(elements@[i as int]@));
        if items.len() < max_items {
            let joined = join_texts(&elements[i], " ");
            let shown = collapsed(&to_chars(joined.as_str()));
            if keeps_anchor_chars(&shown) {
                let item = to_text(&shown, 0, shown.len());
                assert(item@ =~= shown@);
                if !holds_text(&items, &item) {
                    let ghost before = texts(items@);
                    items.push(item);
                    assert(texts(items@) =~= before.push(item@));
                }
            }
        }
        i += 1;
    }
    assert(all.take(elements.len() as int) =~= all);
    items
}

/// The anchor items of a page: the texts of its links, spans and headings.
pub fn extract_anchor_items_from_html(html: &str, max_items: usize) -> (r: Vec<String>)
    ensures
        texts(r@) == anchor_items_in(html@, max_items as nat),
{
    match select_texts(html, ANCHOR_ELEMENTS) {
        Some(elements) => anchor_items(&elements, max_items),
        None => {
            let none: Vec<String> = Vec::new();
            assert(texts(none@) =~= Seq::<Seq<char>>::empty());
            none
        },
    }
}

fn is_header_chars(line: &Vec<char>) -> (b: bool)
    ensures
        b == is_header_line(line@),
{
    let (from, to) = trim_bounds(line);
    if from == to {
        return true;
    }
    to - from < 8 && numeric_only_chars(line)
}

fn clean_chars(snip: &Vec<char>) -> (r: Option<Vec<char>>)
    ensures
        match r {
            Some(c) => cleaned(snip@) == Some(c@),
            None => cleaned(snip@) is None,
        },
{
    let ls = split_lines(snip);
    let mut k: usize = 0;
    while k < ls.len() && is_header_chars(&ls[k])
        invariant
            k <= ls.len(),
            runs(ls@) == lines(snip@),
            first_kept(lines(snip@), 0) == first_kept(lines(snip@), k as int),
        decreases ls.len() - k,
    {
        k += 1;
    }
    let mut feed: Vec<char> = Vec::new();
    feed.push('\n');
    assert(feed@ =~= seq!['\n']);
    let joined = join_runs_from(&ls, k, &feed);
    let body = trimmed(&joined);
    if body.len() == 0 {
        None
    } else {
        Some(body)
    }
}

/// A code example without the blank and line-number lines that it starts
/// with, trimmed; `None` where nothing is left.
pub fn clean_code_snippet(snip: &str) -> (r: Option<String>)
    ensures
        match r {
            Some(c) => cleaned(snip@) == Some(c@),
            None => cleaned(snip@) is None,
        },
{
    let v = to_chars(snip);
    match clean_chars(&v) {
        Some(c) => {
            let s = to_text(&c, 0, c.len());
            assert(s@ =~= c@);
            Some(s)
        },
        None => None,
    }
}

fn holds_sub(hay: &Vec<char>, needle: &str) -> (b: bool)
    ensures
        b == has_sub(hay@, needle@),
{
    let n = to_chars(needle);
    find_sub(hay, &n, 0).is_some()
}

fn has_marker_chars(t: &Vec<char>) -> (b: bool)
    ensures
        b == has_marker(t@),
{
    holds_sub(t, "fn ") || holds_sub(t, "use ") || holds_sub(t, "let ") || holds_sub(
        t,
        "extern crate",
    ) || holds_sub(t, "cargo") || holds_sub(t, "pub fn")
}

/// The code snippets of a list of elements, each given as the list of its
/// text nodes.
pub fn code_blocks(elements: &Vec<Vec<String>>, max_blocks: usize) -> (r: Vec<String>)
    ensures
        texts(r@) == code_blocks_of(nested_texts(elements@), max_blocks as nat),
{
    let mut blocks: Vec<String> = Vec::new();
    let mut i: usize = 0;
    let ghost all = nested_texts(elements@);
    assert(all.take(0) =~= Seq::<Seq<Seq<char>>>::empty());
    assert(texts(blocks@) =~= Seq::<Seq<char>>::empty());
    while i < elements.len()
        invariant
            i <= elements.len(),
            all == nested_texts(elements@),
            texts(blocks@) == code_blocks_of(all.take(i as int), max_blocks as nat),
        decreases elements.len() - i,
    {
        assert(all.take(i + 1).drop_last() =~= all.take(i as int));
        assert(all.take(i + 1).last() == texts(elements@[i as int]@));
        if blocks.len() < max_blocks {
            let joined = join_texts(&elements[i], "\n");
            let t = trimmed(&to_chars(joined.as_str()));
            if t.len() > 0 && has_marker_chars(&t) {
                match clean_chars(&t) {
                    Some(c) => {
                        let block = to_text(&c, 0, c.len());
                        assert(block@ =~= c@);
                        let ghost before = texts(blocks@);
                        blocks.push(block);
                        assert(texts(blocks@) =~= before.push(block@));
                    },
                    None => {},
                }
            }
        }
        i += 1;
    }
    assert(all.take(elements.len() as int) =~= all);
    blocks
}

/// The code snippets of a page: what its preformatted and code elements and
/// its example divisions give.
pub fn extract_code_blocks_from_html(html: &str, max_blocks: usize) -> (r: Vec<String>)
    ensures
        texts(r@) == code_blocks_in(html@, max_blocks as nat),
{
    match select_texts(html, CODE_ELEMENTS) {
        Some(elements) => code_blocks(&elements, max_blocks),
        None => {
            let none: Vec<String> = Vec::new();
            assert(texts(none@) =~= Seq::<Seq<char>>::empty());
            none
        },
    }
}

/// The collapsed text of the first of the elements, each given as the list
/// of its text nodes; empty where there is none.
pub fn first_element_text(found: &Option<Vec<Vec<String>>>) -> (r: String)
    ensures
        r@ == first_text(
            match found {
                Some(v) => Some(nested_texts(v@)),
                None => None,
            },
        ),
{
    match found {
        Some(elements) => {
            if elements.len() > 0 {
                assert(nested_texts(elements@)[0] == texts(elements@[0]@));
                let joined = join_texts(&elements[0], " ");
                let c = collapsed(&to_chars(joined.as_str()));
                let s = to_text(&c, 0, c.len());
                assert(s@ =~= c@);
                s
            } else {
                String::new()
            }
        },
        None => String::new(),
    }
}

fn selector_text(html: &str, selector: &str) -> (r: String)
    ensures
        r@ == first_text(selected_texts(html@, selector@)),
{
    let found = select_texts(html, selector);
    first_element_text(&found)
}

/// The main text of a page.
pub fn extract_text_aggregate(html: &str) -> (r: String)
    ensures
        r@ == text_aggregate(html@),
{
    let t = selector_text(html, "main");
    if !t.as_str().is_empty() {
        return t;
    }
    let t = selector_text(html, "div.content");
    if !t.as_str().is_empty() {
        return t;
    }
    let t = selector_text(html, "div#main");
    if !t.as_str().is_empty() {
        return t;
    }
    let t = selector_text(html, "article");
    if !t.as_str().is_empty() {
        return t;
    }
    let t = selector_text(html, "body");
    if !t.as_str().is_empty() {
        return t;
    }
    let root = select_root_texts(html);
    join_texts(&root, " ")
}

} // verus!
