//! Splicing a replacement into text at given ranges, across a sequence of
//! text nodes.
use crate::text::{first_occurrence, lemma_first_occurrence};
use vstd::prelude::*;

verus! {

/// How a position relates to a list of ranges: it starts one, lies inside
/// one, or lies outside all of them. The first range that applies decides.
pub enum Role {
    Starts,
    Inside,
    Outside,
}

pub open spec fn role(ranges: Seq<(int, int)>, p: int) -> Role
    decreases ranges.len(),
{
    if ranges.len() == 0 {
        Role::Outside
    } else if ranges[0].0 == p {
        Role::Starts
    } else if ranges[0].0 < p < ranges[0].1 {
        Role::Inside
    } else {
        role(ranges.drop_first(), p)
    }
}

/// What position `p` of `text` becomes: the replacement where a range
/// starts, nothing inside a range, and the character itself elsewhere.
pub open spec fn piece(text: Seq<char>, ranges: Seq<(int, int)>, replacement: Seq<char>, p: int) -> Seq<char> {
    match role(ranges, p) {
        Role::Starts => replacement,
        Role::Inside => Seq::empty(),
        Role::Outside => seq![text[p]],
    }
}

/// The pieces of positions `lo..hi` of `text`, one after another.
pub open spec fn spliced(text: Seq<char>, ranges: Seq<(int, int)>, replacement: Seq<char>, lo: int, hi: int) -> Seq<char>
    decreases hi - lo,
{
    if hi <= lo {
        Seq::empty()
    } else {
        spliced(text, ranges, replacement, lo, hi - 1) + piece(text, ranges, replacement, hi - 1)
    }
}

pub proof fn lemma_spliced_split(text: Seq<char>, ranges: Seq<(int, int)>, replacement: Seq<char>, lo: int, mid: int, hi: int)
    requires
        lo <= mid <= hi,
    ensures
        spliced(text, ranges, replacement, lo, hi) == spliced(text, ranges, replacement, lo, mid) + spliced(
            text,
            ranges,
            replacement,
            mid,
            hi,
        ),
    decreases hi - mid,
{
    if hi == mid {
        assert(spliced(text, ranges, replacement, lo, mid) + Seq::<char>::empty() =~= spliced(text, ranges, replacement, lo, mid));
    } else {
        lemma_spliced_split(text, ranges, replacement, lo, mid, hi - 1);
    }
}

/// Splicing with two range lists that give every position of `lo..hi` the
/// same role gives the same text.
pub proof fn lemma_spliced_same_roles(text: Seq<char>, a: Seq<(int, int)>, b: Seq<(int, int)>, replacement: Seq<char>, lo: int, hi: int)
    requires
        forall|p: int| lo <= p < hi ==> role(a, p) == role(b, p),
    ensures
        spliced(text, a, replacement, lo, hi) == spliced(text, b, replacement, lo, hi),
    decreases hi - lo,
{
    if lo < hi {
        lemma_spliced_same_roles(text, a, b, replacement, lo, hi - 1);
    }
}

/// Positions outside every range keep their characters.
pub proof fn lemma_spliced_outside(text: Seq<char>, ranges: Seq<(int, int)>, replacement: Seq<char>, lo: int, hi: int)
    requires
        0 <= lo <= hi <= text.len(),
        forall|p: int| lo <= p < hi ==> role(ranges, p) == Role::Outside,
    ensures
        spliced(text, ranges, replacement, lo, hi) == text.subrange(lo, hi),
    decreases hi - lo,
{
    if lo < hi {
        lemma_spliced_outside(text, ranges, replacement, lo, hi - 1);
        assert(text.subrange(lo, hi) =~= text.subrange(lo, hi - 1) + seq![text[hi - 1]]);
    } else {
        assert(text.subrange(lo, hi) =~= Seq::<char>::empty());
    }
}

/// Positions inside a range give nothing.
pub proof fn lemma_spliced_inside(text: Seq<char>, ranges: Seq<(int, int)>, replacement: Seq<char>, lo: int, hi: int)
    requires
        forall|p: int| lo <= p < hi ==> role(ranges, p) == Role::Inside,
    ensures
        spliced(text, ranges, replacement, lo, hi) == Seq::<char>::empty(),
    decreases hi - lo,
{
    if lo < hi {
        lemma_spliced_inside(text, ranges, replacement, lo, hi - 1);
    }
}

/// The concatenation of a sequence of texts.
pub open spec fn joined(texts: Seq<Seq<char>>) -> Seq<char>
    decreases texts.len(),
{
    if texts.len() == 0 {
        Seq::empty()
    } else {
        joined(texts.drop_last()) + texts.last()
    }
}

/// Where text node `i` begins in the concatenation of the nodes.
pub open spec fn node_start(texts: Seq<Seq<char>>, i: int) -> int {
    joined(texts.take(i)).len() as int
}

/// The new text of node `i`: the pieces of the positions it spans.
pub open spec fn spliced_node(texts: Seq<Seq<char>>, ranges: Seq<(int, int)>, replacement: Seq<char>, i: int) -> Seq<char> {
    spliced(joined(texts), ranges, replacement, node_start(texts, i), node_start(texts, i) + texts[i].len())
}

/// The new text of every node.
pub open spec fn spliced_nodes(texts: Seq<Seq<char>>, ranges: Seq<(int, int)>, replacement: Seq<char>) -> Seq<Seq<char>> {
    Seq::new(texts.len(), |i: int| spliced_node(texts, ranges, replacement, i))
}

pub proof fn lemma_joined_take(texts: Seq<Seq<char>>, i: int)
    requires
        0 <= i < texts.len(),
    ensures
        joined(texts.take(i + 1)) == joined(texts.take(i)) + texts[i],
        joined(texts.take(i)).len() + texts[i].len() <= joined(texts).len(),
{
    assert(texts.take(i + 1).drop_last() =~= texts.take(i));
    lemma_joined_prefix_len(texts, i + 1);
}

pub proof fn lemma_joined_prefix_len(texts: Seq<Seq<char>>, k: int)
    requires
        0 <= k <= texts.len(),
    ensures
        joined(texts.take(k)).len() <= joined(texts).len(),
        joined(texts) == joined(texts.take(k)) + joined(texts.skip(k)),
    decreases texts.len() - k,
{
    if k == texts.len() {
        assert(texts.take(k) =~= texts);
        assert(texts.skip(k) =~= Seq::<Seq<char>>::empty());
        assert(joined(texts) + Seq::<char>::empty() =~= joined(texts));
    } else {
        lemma_joined_prefix_len(texts, k + 1);
        assert(texts.take(k + 1).drop_last() =~= texts.take(k));
        lemma_joined_front(texts.skip(k));
        assert(texts.skip(k).drop_first() =~= texts.skip(k + 1));
        assert(joined(texts.take(k)) + texts[k] + joined(texts.skip(k + 1)) =~= joined(texts.take(k)) + (texts[k]
            + joined(texts.skip(k + 1))));
    }
}

pub proof fn lemma_joined_front(texts: Seq<Seq<char>>)
    requires
        texts.len() > 0,
    ensures
        joined(texts) == texts[0] + joined(texts.drop_first()),
    decreases texts.len(),
{
    if texts.len() == 1 {
        assert(texts.drop_last() =~= Seq::<Seq<char>>::empty());
        assert(texts.drop_first() =~= Seq::<Seq<char>>::empty());
        assert(Seq::<char>::empty() + texts[0] =~= texts[0] + Seq::<char>::empty());
    } else {
        lemma_joined_front(texts.drop_last());
        assert(texts.drop_last().drop_first() =~= texts.drop_first().drop_last());
        assert(texts.drop_first().last() == texts.last());
        assert(texts[0] + joined(texts.drop_first().drop_last()) + texts.last() =~= texts[0] + (joined(
            texts.drop_first().drop_last(),
        ) + texts.last()));
    }
}

/// The new texts of the nodes, joined, are the spliced concatenation.
pub proof fn lemma_spliced_nodes_joined(texts: Seq<Seq<char>>, ranges: Seq<(int, int)>, replacement: Seq<char>)
    ensures
        joined(spliced_nodes(texts, ranges, replacement)) == spliced(joined(texts), ranges, replacement, 0, joined(texts).len() as int),
{
    lemma_spliced_nodes_prefix(texts, ranges, replacement, texts.len() as int);
    assert(spliced_nodes(texts, ranges, replacement).take(texts.len() as int) =~= spliced_nodes(texts, ranges, replacement));
    assert(texts.take(texts.len() as int) =~= texts);
}

pub proof fn lemma_spliced_nodes_prefix(texts: Seq<Seq<char>>, ranges: Seq<(int, int)>, replacement: Seq<char>, k: int)
    requires
        0 <= k <= texts.len(),
    ensures
        joined(spliced_nodes(texts, ranges, replacement).take(k)) == spliced(joined(texts), ranges, replacement, 0, node_start(texts, k)),
    decreases k,
{
    let nodes = spliced_nodes(texts, ranges, replacement);
    if k == 0 {
        assert(nodes.take(0) =~= Seq::<Seq<char>>::empty());
        assert(texts.take(0) =~= Seq::<Seq<char>>::empty());
    } else {
        lemma_spliced_nodes_prefix(texts, ranges, replacement, k - 1);
        assert(nodes.take(k).drop_last() =~= nodes.take(k - 1));
        lemma_joined_take(texts, k - 1);
        lemma_spliced_split(joined(texts), ranges, replacement, 0, node_start(texts, k - 1), node_start(texts, k));
    }
}

/// A well-formed list of ranges: each range is non-empty and lies within
/// `0..len`, and each ends before the next starts.
pub open spec fn well_formed_ranges(ranges: Seq<(int, int)>, len: int) -> bool {
    &&& forall|k: int| 0 <= k < ranges.len() ==> 0 <= #[trigger] ranges[k].0 < ranges[k].1 <= len
    &&& forall|k: int| 0 <= k < ranges.len() - 1 ==> #[trigger] ranges[k].1 <= ranges[k + 1].0
}

/// The leftmost non-overlapping occurrences of `needle` in `hay` at or after
/// `from`, as ranges.
pub open spec fn occurrence_ranges(hay: Seq<char>, needle: Seq<char>, from: int) -> Seq<(int, int)>
    decreases hay.len() + 1 - from,
{
    if needle.len() == 0 || from < 0 {
        Seq::empty()
    } else {
        match first_occurrence(hay, needle, from) {
            Some(i) => if i >= from && i + needle.len() <= hay.len() {
                seq![(i, i + needle.len())] + occurrence_ranges(hay, needle, i + needle.len())
            } else {
                Seq::empty()
            },
            None => Seq::empty(),
        }
    }
}

/// `hay` with each leftmost non-overlapping occurrence of `needle` at or
/// after `from` replaced, the text before `from` left out (the behaviour of
/// `str::replace`).
pub open spec fn replaced_from(hay: Seq<char>, needle: Seq<char>, replacement: Seq<char>, from: int) -> Seq<char>
    decreases hay.len() + 1 - from,
{
    if needle.len() == 0 || from < 0 || from > hay.len() {
        hay.skip(from)
    } else {
        match first_occurrence(hay, needle, from) {
            Some(i) => if i >= from && i + needle.len() <= hay.len() {
                hay.subrange(from, i) + replacement + replaced_from(hay, needle, replacement, i + needle.len())
            } else {
                hay.skip(from)
            },
            None => hay.skip(from),
        }
    }
}

/// Every occurrence range from `from` on starts at or after `from`, ends
/// within the text and is well formed.
pub proof fn lemma_occurrence_ranges(hay: Seq<char>, needle: Seq<char>, from: int)
    requires
        0 <= from,
        needle.len() > 0,
    ensures
        forall|k: int| 0 <= k < occurrence_ranges(hay, needle, from).len() ==> from <= (
        #[trigger] occurrence_ranges(hay, needle, from)[k]).0,
        well_formed_ranges(occurrence_ranges(hay, needle, from), hay.len() as int),
        forall|k: int| 0 <= k < occurrence_ranges(hay, needle, from).len() ==> (
        #[trigger] occurrence_ranges(hay, needle, from)[k]).1 == occurrence_ranges(hay, needle, from)[k].0
            + needle.len(),
    decreases hay.len() + 1 - from,
{
    lemma_first_occurrence(hay, needle, from);
    match first_occurrence(hay, needle, from) {
        Some(i) => {
            lemma_occurrence_ranges(hay, needle, i + needle.len());
            let rest = occurrence_ranges(hay, needle, i + needle.len());
            let all = occurrence_ranges(hay, needle, from);
            assert(all =~= seq![(i, i + needle.len())] + rest);
            assert forall|k: int| 0 <= k < all.len() - 1 implies #[trigger] all[k].1 <= all[k + 1].0 by {
                if k > 0 {
                    assert(all[k] == rest[k - 1]);
                    assert(all[k + 1] == rest[k]);
                } else {
                    assert(all[1] == rest[0]);
                }
            }
            assert forall|k: int| 0 <= k < all.len() implies 0 <= #[trigger] all[k].0 < all[k].1 <= hay.len() by {
                if k > 0 {
                    assert(all[k] == rest[k - 1]);
                }
            }
        },
        None => {},
    }
}

/// A position before the start of every range lies outside them all.
pub proof fn lemma_role_before(ranges: Seq<(int, int)>, p: int)
    requires
        forall|k: int| 0 <= k < ranges.len() ==> p < #[trigger] ranges[k].0,
    ensures
        role(ranges, p) == Role::Outside,
    decreases ranges.len(),
{
    if ranges.len() > 0 {
        assert(p < ranges[0].0);
        assert forall|k: int| 0 <= k < ranges.drop_first().len() implies p < #[trigger] ranges.drop_first()[k].0 by {
            assert(ranges.drop_first()[k] == ranges[k + 1]);
        }
        lemma_role_before(ranges.drop_first(), p);
    }
}

/// Splicing at the occurrence ranges is the `str::replace` behaviour.
pub proof fn lemma_spliced_occurrences(hay: Seq<char>, needle: Seq<char>, replacement: Seq<char>, from: int)
    requires
        0 <= from <= hay.len(),
        needle.len() > 0,
    ensures
        spliced(hay, occurrence_ranges(hay, needle, from), replacement, from, hay.len() as int) == replaced_from(
            hay,
            needle,
            replacement,
            from,
        ),
    decreases hay.len() + 1 - from,
{
    let ranges = occurrence_ranges(hay, needle, from);
    lemma_first_occurrence(hay, needle, from);
    lemma_occurrence_ranges(hay, needle, from);
    match first_occurrence(hay, needle, from) {
        Some(i) => {
            let m = needle.len() as int;
            let rest = occurrence_ranges(hay, needle, i + m);
            lemma_occurrence_ranges(hay, needle, i + m);
            assert(ranges =~= seq![(i, i + m)] + rest);
            assert(ranges.drop_first() =~= rest);
            assert forall|p: int| from <= p < i implies role(ranges, p) == Role::Outside by {
                assert forall|k: int| 0 <= k < ranges.len() implies p < #[trigger] ranges[k].0 by {
                    if k > 0 {
                        assert(ranges[k] == rest[k - 1]);
                    }
                }
                lemma_role_before(ranges, p);
            }
            lemma_spliced_outside(hay, ranges, replacement, from, i);
            assert forall|p: int| i + 1 <= p < i + m implies role(ranges, p) == Role::Inside by {}
            lemma_spliced_inside(hay, ranges, replacement, i + 1, i + m);
            assert forall|p: int| i + m <= p < hay.len() implies role(ranges, p) == role(rest, p) by {}
            lemma_spliced_same_roles(hay, ranges, rest, replacement, i + m, hay.len() as int);
            lemma_spliced_occurrences(hay, needle, replacement, i + m);
            lemma_spliced_split(hay, ranges, replacement, from, i, hay.len() as int);
            lemma_spliced_split(hay, ranges, replacement, i, i + 1, hay.len() as int);
            lemma_spliced_split(hay, ranges, replacement, i + 1, i + m, hay.len() as int);
            assert(spliced(hay, ranges, replacement, i, i + 1) =~= replacement) by {
                assert(spliced(hay, ranges, replacement, i, i) =~= Seq::<char>::empty());
            }
            assert(Seq::<char>::empty() + spliced(hay, ranges, replacement, i + m, hay.len() as int)
                =~= spliced(hay, ranges, replacement, i + m, hay.len() as int));
            assert(hay.subrange(from, i) + (replacement + replaced_from(hay, needle, replacement, i + m))
                =~= hay.subrange(from, i) + replacement + replaced_from(hay, needle, replacement, i + m));
        },
        None => {
            assert(ranges =~= Seq::<(int, int)>::empty());
            lemma_spliced_outside(hay, ranges, replacement, from, hay.len() as int);
            assert(hay.subrange(from, hay.len() as int) =~= hay.skip(from));
        },
    }
}

} // verus!
