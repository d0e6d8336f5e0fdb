//! Finding the ranges to replace in a paragraph's text and rewriting its
//! text nodes.
use crate::splice::{
    joined, lemma_joined_prefix_len, lemma_joined_take, node_start, occurrence_ranges, role, spliced,
    spliced_node, spliced_nodes, Role,
};
use crate::text::{find_from, lemma_first_occurrence};
use vstd::prelude::*;

verus! {

/// How matching treats letter case.
#[derive(PartialEq, Eq, Structural, Clone, Copy)]
pub enum CaseMatching {
    /// Matches only text that equals the search text.
    Sensitive,
    /// Matches text whose Unicode lowercase form equals that of the search text.
    UnicodeInsensitive,
}

/// Options of a text replacement.
#[derive(Clone, Copy)]
pub struct ReplaceOptions {
    pub case_matching: CaseMatching,
}

impl ReplaceOptions {
    /// Case-sensitive matching.
    pub fn new() -> (options: ReplaceOptions)
        ensures
            options.case_matching == CaseMatching::Sensitive,
    {
        ReplaceOptions { case_matching: CaseMatching::Sensitive }
    }
}

impl Default for ReplaceOptions {
    fn default() -> (options: ReplaceOptions)
        ensures
            options.case_matching == CaseMatching::Sensitive,
    {
        ReplaceOptions::new()
    }
}

impl Default for CaseMatching {
    fn default() -> (c: CaseMatching)
        ensures
            c == CaseMatching::Sensitive,
    {
        CaseMatching::Sensitive
    }
}

/// The mathematical value of a list of ranges.
pub open spec fn ranges_view(ranges: Seq<(usize, usize)>) -> Seq<(int, int)> {
    ranges.map_values(|r: (usize, usize)| (r.0 as int, r.1 as int))
}

/// The mathematical value of a list of texts.
pub open spec fn texts_view(texts: Seq<Vec<char>>) -> Seq<Seq<char>> {
    texts.map_values(|t: Vec<char>| t@)
}

/// Decides the role of a position among ranges.
pub fn role_of(ranges: &[(usize, usize)], p: usize) -> (r: Role)
    ensures
        r == role(ranges_view(ranges@), p as int),
{
    let mut k: usize = 0;
    assert(ranges_view(ranges@).skip(0) =~= ranges_view(ranges@));
    while k < ranges.len()
        invariant
            k <= ranges.len(),
            role(ranges_view(ranges@), p as int) == role(ranges_view(ranges@).skip(k as int), p as int),
        decreases ranges.len() - k,
    {
        let (start, end) = ranges[k];
        if start == p {
            return Role::Starts;
        }
        if start < p && p < end {
            return Role::Inside;
        }
        assert(ranges_view(ranges@).skip(k as int).drop_first() =~= ranges_view(ranges@).skip(k + 1));
        k = k + 1;
    }
    Role::Outside
}

/// Concatenates texts.
pub fn join_texts(texts: &Vec<Vec<char>>) -> (all: Vec<char>)
    ensures
        all@ == joined(texts_view(texts@)),
{
    let mut all: Vec<char> = Vec::new();
    let mut i: usize = 0;
    while i < texts.len()
        invariant
            i <= texts.len(),
            all@ == joined(texts_view(texts@).take(i as int)),
        decreases texts.len() - i,
    {
        let text = &texts[i];
        let mut q: usize = 0;
        let ghost before = all@;
        while q < text.len()
            invariant
                q <= text.len(),
                all@ == before + text@.take(q as int),
            decreases text.len() - q,
        {
            all.push(text[q]);
            q = q + 1;
            assert(all@ =~= before + text@.take(q as int));
        }
        assert(texts_view(texts@).take(i + 1).drop_last() =~= texts_view(texts@).take(i as int));
        assert(text@.take(text.len() as int) =~= text@);
        i = i + 1;
    }
    assert(texts_view(texts@).take(texts.len() as int) =~= texts_view(texts@));
    all
}

/// Rewrites text nodes so that each holds the pieces of the positions it
/// spans: a match's replacement lands in the node where the match starts,
/// and the matched text disappears from every node it touched.
pub fn splice_text_nodes(texts: &Vec<Vec<char>>, ranges: &[(usize, usize)], replacement: &[char]) -> (out: Vec<Vec<char>>)
    requires
        joined(texts_view(texts@)).len() <= usize::MAX,
    ensures
        texts_view(out@) == spliced_nodes(texts_view(texts@), ranges_view(ranges@), replacement@),
{
    let ghost tv = texts_view(texts@);
    let ghost rv = ranges_view(ranges@);
    let mut out: Vec<Vec<char>> = Vec::new();
    let mut offset: usize = 0;
    let mut i: usize = 0;
    while i < texts.len()
        invariant
            i <= texts.len(),
            tv == texts_view(texts@),
            rv == ranges_view(ranges@),
            joined(tv).len() <= usize::MAX,
            offset == node_start(tv, i as int),
            out@.len() == i,
            forall|j: int| 0 <= j < i ==> (#[trigger] out@[j])@ == spliced_node(tv, rv, replacement@, j),
        decreases texts.len() - i,
    {
        let text = &texts[i];
        proof {
            lemma_joined_take(tv, i as int);
            lemma_joined_prefix_len(tv, i + 1);
            assert(tv[i as int] == text@);
        }
        let mut node: Vec<char> = Vec::new();
        let mut q: usize = 0;
        while q < text.len()
            invariant
                q <= text.len(),
                tv == texts_view(texts@),
                rv == ranges_view(ranges@),
                text@ == tv[i as int],
                i < tv.len(),
                offset == node_start(tv, i as int),
                offset + text.len() <= joined(tv).len(),
                joined(tv) == joined(tv.take(i + 1)) + joined(tv.skip(i + 1)),
                joined(tv.take(i + 1)) == joined(tv.take(i as int)) + tv[i as int],
                joined(tv).len() <= usize::MAX,
                node@ == spliced(joined(tv), rv, replacement@, offset as int, offset + q),
            decreases text.len() - q,
        {
            let p = offset + q;
            assert(joined(tv)[p as int] == text@[q as int]);
            let ghost before = node@;
            match role_of(ranges, p) {
                Role::Starts => {
                    let mut r: usize = 0;
                    while r < replacement.len()
                        invariant
                            r <= replacement.len(),
                            node@ == before + replacement@.take(r as int),
                        decreases replacement.len() - r,
                    {
                        node.push(replacement[r]);
                        r = r + 1;
                        assert(node@ =~= before + replacement@.take(r as int));
                    }
                    assert(replacement@.take(replacement.len() as int) =~= replacement@);
                },
                Role::Inside => {
                    assert(before + Seq::<char>::empty() =~= before);
                },
                Role::Outside => {
                    node.push(text[q]);
                },
            }
            q = q + 1;
        }
        out.push(node);
        proof {
            assert(out@[i as int]@ == spliced_node(tv, rv, replacement@, i as int));
        }
        offset = offset + text.len();
        i = i + 1;
    }
    assert(texts_view(out@) =~= spliced_nodes(tv, rv, replacement@));
    out
}

/// The leftmost non-overlapping occurrences of `search` in `text`.
pub fn sensitive_ranges(text: &[char], search: &[char]) -> (ranges: Vec<(usize, usize)>)
    requires
        search.len() > 0,
    ensures
        ranges_view(ranges@) == occurrence_ranges(text@, search@, 0),
{
    let mut ranges: Vec<(usize, usize)> = Vec::new();
    let mut from: usize = 0;
    assert(ranges_view(ranges@) + occurrence_ranges(text@, search@, 0) =~= occurrence_ranges(text@, search@, 0));
    loop
        invariant
            from <= text.len(),
            search.len() > 0,
            ranges_view(ranges@) + occurrence_ranges(text@, search@, from as int) == occurrence_ranges(text@, search@, 0),
        decreases text.len() - from,
    {
        proof {
            lemma_first_occurrence(text@, search@, from as int);
        }
        match find_from(text, search, from) {
            Some(i) => {
                let ghost before = ranges@;
                ranges.push((i, i + search.len()));
                assert(ranges_view(ranges@) =~= ranges_view(before) + seq![(i as int, i + search.len())]);
                assert(ranges_view(ranges@) + occurrence_ranges(text@, search@, i + search.len()) =~= ranges_view(before)
                    + occurrence_ranges(text@, search@, from as int));
                from = i + search.len();
            },
            None => {
                assert(ranges_view(ranges@) + occurrence_ranges(text@, search@, from as int) =~= ranges_view(ranges@));
                return ranges;
            },
        }
    }
}

/// The lowercase mapping of a character, as `char::to_lowercase` gives it.
pub uninterp spec fn lowercase_char(c: char) -> Seq<char>;

/// The lowercase form of a text, as `str::to_lowercase` gives it.
pub uninterp spec fn lowercase_text(s: Seq<char>) -> Seq<char>;

/// Lowercases one character with `char::to_lowercase`, which yields one or
/// more characters.
#[verifier::external_body]
fn lowercase_of_char(c: char) -> (out: String)
    ensures
        out@ == lowercase_char(c),
        out@.len() >= 1,
{
    c.to_lowercase().collect()
}

/// Lowercases a text with `str::to_lowercase`, which maps each character to
/// one or more characters, so a non-empty text stays non-empty.
#[verifier::external_body]
fn lowercase_of_text(s: &str) -> (out: String)
    ensures
        out@ == lowercase_text(s@),
        s@.len() > 0 ==> out@.len() > 0,
{
    s.to_lowercase()
}

/// A text lowercased character by character.
pub open spec fn folded(text: Seq<char>) -> Seq<char>
    decreases text.len(),
{
    if text.len() == 0 {
        Seq::empty()
    } else {
        folded(text.drop_last()) + lowercase_char(text.last())
    }
}

/// Where the lowercase form of character `k` begins in the folded text.
pub open spec fn folded_offset(text: Seq<char>, k: int) -> int {
    folded(text.take(k)).len() as int
}

/// The first character position from `k` on whose folded offset is `f`.
pub open spec fn boundary_from(text: Seq<char>, f: int, k: int) -> Option<int>
    decreases text.len() + 1 - k,
{
    if k < 0 || k > text.len() {
        None
    } else if folded_offset(text, k) == f {
        Some(k)
    } else {
        boundary_from(text, f, k + 1)
    }
}

/// The ranges of the unfolded text whose folded ranges are given, for those
/// folded ranges that begin and end on character boundaries.
pub open spec fn unfolded_ranges(text: Seq<char>, folded_ranges: Seq<(int, int)>) -> Seq<(int, int)>
    decreases folded_ranges.len(),
{
    if folded_ranges.len() == 0 {
        Seq::empty()
    } else {
        let rest = unfolded_ranges(text, folded_ranges.drop_first());
        match (boundary_from(text, folded_ranges[0].0, 0), boundary_from(text, folded_ranges[0].1, 0)) {
            (Some(a), Some(b)) => seq![(a, b)] + rest,
            _ => rest,
        }
    }
}

/// The ranges that match `search` regardless of case: occurrences of the
/// lowercase search text in the folded text, mapped back to the text.
pub open spec fn insensitive_ranges_of(text: Seq<char>, search: Seq<char>) -> Seq<(int, int)> {
    unfolded_ranges(text, occurrence_ranges(folded(text), lowercase_text(search), 0))
}

/// Finds the case-insensitive matches of `search` in `text`.
pub fn insensitive_ranges(text: &[char], search: &str) -> (ranges: Vec<(usize, usize)>)
    requires
        search@.len() > 0,
    ensures
        ranges_view(ranges@) == insensitive_ranges_of(text@, search@),
{
    let folded_search = crate::text::chars_of(lowercase_of_text(search).as_str());
    let mut folded_text: Vec<char> = Vec::new();
    let mut offsets: Vec<usize> = Vec::new();
    offsets.push(0);
    let mut k: usize = 0;
    while k < text.len()
        invariant
            k <= text.len(),
            folded_text@ == folded(text@.take(k as int)),
            offsets@.len() == k + 1,
            forall|j: int| 0 <= j <= k ==> offsets@[j] == folded_offset(text@, j),
        decreases text.len() - k,
    {
        let lower = crate::text::chars_of(lowercase_of_char(text[k]).as_str());
        let mut q: usize = 0;
        let ghost before = folded_text@;
        while q < lower.len()
            invariant
                q <= lower.len(),
                folded_text@ == before + lower@.take(q as int),
            decreases lower.len() - q,
        {
            folded_text.push(lower[q]);
            q = q + 1;
            assert(folded_text@ =~= before + lower@.take(q as int));
        }
        assert(lower@.take(lower.len() as int) =~= lower@);
        assert(text@.take(k + 1).drop_last() =~= text@.take(k as int));
        offsets.push(folded_text.len());
        k = k + 1;
        assert forall|j: int| 0 <= j <= k implies offsets@[j] == folded_offset(text@, j) by {}
    }
    assert(text@.take(text.len() as int) =~= text@);
    let folded_ranges = sensitive_ranges(folded_text.as_slice(), folded_search.as_slice());
    let mut ranges: Vec<(usize, usize)> = Vec::new();
    let mut i: usize = 0;
    assert(ranges_view(folded_ranges@).skip(0) =~= ranges_view(folded_ranges@));
    assert(ranges_view(ranges@) + unfolded_ranges(text@, ranges_view(folded_ranges@)) =~= unfolded_ranges(text@, ranges_view(folded_ranges@)));
    while i < folded_ranges.len()
        invariant
            i <= folded_ranges.len(),
            offsets@.len() == text.len() + 1,
            forall|j: int| 0 <= j <= text.len() ==> offsets@[j] == folded_offset(text@, j),
            ranges_view(ranges@) + unfolded_ranges(text@, ranges_view(folded_ranges@).skip(i as int))
                == unfolded_ranges(text@, ranges_view(folded_ranges@)),
        decreases folded_ranges.len() - i,
    {
        let (fs, fe) = folded_ranges[i];
        let start = find_offset(&offsets, fs, Ghost(text@));
        let end = find_offset(&offsets, fe, Ghost(text@));
        let ghost rest = ranges_view(folded_ranges@).skip(i + 1);
        assert(ranges_view(folded_ranges@).skip(i as int).drop_first() =~= rest);
        let ghost before = ranges@;
        match (start, end) {
            (Some(a), Some(b)) => {
                ranges.push((a, b));
                assert(ranges_view(ranges@) =~= ranges_view(before) + seq![(a as int, b as int)]);
                assert(ranges_view(ranges@) + unfolded_ranges(text@, rest) =~= ranges_view(before) + (seq![(a as int, b as int)] + unfolded_ranges(text@, rest)));
            },
            _ => {},
        }
        i = i + 1;
    }
    assert(ranges_view(folded_ranges@).skip(folded_ranges.len() as int) =~= Seq::<(int, int)>::empty());
    assert(ranges_view(ranges@) + Seq::<(int, int)>::empty() =~= ranges_view(ranges@));
    ranges
}

/// The first position whose offset is `f`.
fn find_offset(offsets: &Vec<usize>, f: usize, text: Ghost<Seq<char>>) -> (k: Option<usize>)
    requires
        offsets@.len() == text@.len() + 1,
        forall|j: int| 0 <= j <= text@.len() ==> offsets@[j] == folded_offset(text@, j),
    ensures
        k matches Some(k) ==> boundary_from(text@, f as int, 0) == Some(k as int),
        k is None ==> boundary_from(text@, f as int, 0) is None,
{
    let mut j: usize = 0;
    while j < offsets.len()
        invariant
            j <= offsets.len(),
            offsets@.len() == text@.len() + 1,
            forall|i: int| 0 <= i <= text@.len() ==> offsets@[i] == folded_offset(text@, i),
            boundary_from(text@, f as int, 0) == boundary_from(text@, f as int, j as int),
        decreases offsets.len() - j,
    {
        if offsets[j] == f {
            return Some(j);
        }
        j = j + 1;
    }
    None
}

} // verus!
