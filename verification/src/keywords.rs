//! Keyword lists written as comma-separated text.
use crate::text::{chars_of, find_from, first_occurrence, lemma_first_occurrence, occurs_at, string_of_range};
use vstd::prelude::*;

verus! {

/// Whether a character is Unicode white space (`char::is_whitespace`).
pub open spec fn is_white_space(c: char) -> bool {
    ('\u{9}' <= c && c <= '\u{d}') || c == ' ' || c == '\u{85}' || c == '\u{a0}' || c == '\u{1680}' || ('\u{2000}'
        <= c && c <= '\u{200a}') || c == '\u{2028}' || c == '\u{2029}' || c == '\u{202f}' || c == '\u{205f}' || c
        == '\u{3000}'
}

/// Decides whether a character is Unicode white space.
pub fn white_space(c: char) -> (b: bool)
    ensures
        b == is_white_space(c),
{
    ('\u{9}' <= c && c <= '\u{d}') || c == ' ' || c == '\u{85}' || c == '\u{a0}' || c == '\u{1680}' || ('\u{2000}'
        <= c && c <= '\u{200a}') || c == '\u{2028}' || c == '\u{2029}' || c == '\u{202f}' || c == '\u{205f}' || c
        == '\u{3000}'
}

/// A text without its leading white space.
pub open spec fn trimmed_start(s: Seq<char>) -> Seq<char>
    decreases s.len(),
{
    if s.len() > 0 && is_white_space(s[0]) {
        trimmed_start(s.drop_first())
    } else {
        s
    }
}

/// A text without its trailing white space.
pub open spec fn trimmed_end(s: Seq<char>) -> Seq<char>
    decreases s.len(),
{
    if s.len() > 0 && is_white_space(s.last()) {
        trimmed_end(s.drop_last())
    } else {
        s
    }
}

/// A text without leading and trailing white space (`str::trim`).
pub open spec fn trimmed(s: Seq<char>) -> Seq<char> {
    trimmed_end(trimmed_start(s))
}

/// The positions `from..to` of `s`, without leading and trailing white space.
pub fn trim_range(s: &[char], from: usize, to: usize) -> (out: String)
    requires
        from <= to <= s.len(),
    ensures
        out@ == trimmed(s@.subrange(from as int, to as int)),
{
    let mut a = from;
    assert(s@.subrange(from as int, to as int) =~= s@.subrange(a as int, to as int));
    while a < to && white_space(s[a])
        invariant
            from <= a <= to <= s.len(),
            trimmed_start(s@.subrange(from as int, to as int)) == trimmed_start(s@.subrange(a as int, to as int)),
        decreases to - a,
    {
        assert(s@.subrange(a as int, to as int).drop_first() =~= s@.subrange(a + 1, to as int));
        a = a + 1;
    }
    let mut b = to;
    assert(trimmed_start(s@.subrange(a as int, to as int)) == s@.subrange(a as int, to as int));
    while b > a && white_space(s[b - 1])
        invariant
            a <= b <= to <= s.len(),
            trimmed(s@.subrange(from as int, to as int)) == trimmed_end(s@.subrange(a as int, b as int)),
        decreases b,
    {
        assert(s@.subrange(a as int, b as int).drop_last() =~= s@.subrange(a as int, b - 1));
        b = b - 1;
    }
    string_of_range(s, a, b)
}

/// The pieces of `s` from position `from` on, split at each comma
/// (`str::split(',')`).
pub open spec fn comma_pieces(s: Seq<char>, from: int) -> Seq<Seq<char>>
    decreases s.len() + 1 - from,
{
    if from < 0 || from > s.len() {
        Seq::empty()
    } else {
        match first_occurrence(s, seq![','], from) {
            Some(i) => if from <= i < s.len() {
                seq![s.subrange(from, i)] + comma_pieces(s, i + 1)
            } else {
                Seq::empty()
            },
            None => seq![s.skip(from)],
        }
    }
}

/// The trimmed pieces that are not empty, in order.
pub open spec fn nonblank_trimmed(pieces: Seq<Seq<char>>) -> Seq<Seq<char>>
    decreases pieces.len(),
{
    if pieces.len() == 0 {
        Seq::empty()
    } else if trimmed(pieces.last()).len() > 0 {
        nonblank_trimmed(pieces.drop_last()).push(trimmed(pieces.last()))
    } else {
        nonblank_trimmed(pieces.drop_last())
    }
}

/// The keywords of comma-separated text: its comma-separated pieces,
/// trimmed, without the empty ones.
pub open spec fn keywords_of(s: Seq<char>) -> Seq<Seq<char>> {
    nonblank_trimmed(comma_pieces(s, 0))
}

/// The views of a list of strings.
pub open spec fn strings_view(v: Seq<String>) -> Seq<Seq<char>> {
    v.map_values(|s: String| s@)
}

pub proof fn lemma_nonblank_append(a: Seq<Seq<char>>, b: Seq<Seq<char>>)
    ensures
        nonblank_trimmed(a + b) == nonblank_trimmed(a) + nonblank_trimmed(b),
    decreases b.len(),
{
    if b.len() == 0 {
        assert(a + b =~= a);
        assert(nonblank_trimmed(a) + Seq::<Seq<char>>::empty() =~= nonblank_trimmed(a));
    } else {
        lemma_nonblank_append(a, b.drop_last());
        assert((a + b).drop_last() =~= a + b.drop_last());
        assert((a + b).last() == b.last());
        if trimmed(b.last()).len() > 0 {
            assert(nonblank_trimmed(a) + nonblank_trimmed(b.drop_last()).push(trimmed(b.last())) =~= (nonblank_trimmed(a)
                + nonblank_trimmed(b.drop_last())).push(trimmed(b.last())));
        }
    }
}

/// Splits comma-separated text into keywords.
pub fn split_keywords(text: &str) -> (keywords: Vec<String>)
    ensures
        strings_view(keywords@) == keywords_of(text@),
{
    let chars = chars_of(text);
    let comma = vec![','];
    assert(comma@ =~= seq![',']);
    let mut keywords: Vec<String> = Vec::new();
    let ghost mut done: Seq<Seq<char>> = Seq::empty();
    let mut start: usize = 0;
    assert(done + comma_pieces(text@, 0) =~= comma_pieces(text@, 0));
    loop
        invariant
            chars@ == text@,
            comma@ == seq![','],
            start <= chars.len(),
            done + comma_pieces(text@, start as int) == comma_pieces(text@, 0),
            strings_view(keywords@) == nonblank_trimmed(done),
        decreases chars.len() - start,
    {
        proof {
            lemma_first_occurrence(text@, seq![','], start as int);
        }
        let ghost before = keywords@;
        match find_from(chars.as_slice(), comma.as_slice(), start) {
            Some(i) => {
                let piece = trim_range(chars.as_slice(), start, i);
                if !piece.as_str().is_empty() {
                    keywords.push(piece);
                }
                proof {
                    let p = text@.subrange(start as int, i as int);
                    assert(comma_pieces(text@, start as int) == seq![p] + comma_pieces(text@, i + 1));
                    assert(done + comma_pieces(text@, start as int) =~= done.push(p) + comma_pieces(text@, i + 1));
                    assert(done.push(p).drop_last() =~= done);
                    done = done.push(p);
                    assert(strings_view(keywords@) =~= nonblank_trimmed(done));
                }
                start = i + 1;
            },
            None => {
                let piece = trim_range(chars.as_slice(), start, chars.len());
                if !piece.as_str().is_empty() {
                    keywords.push(piece);
                }
                proof {
                    let p = text@.subrange(start as int, chars.len() as int);
                    assert(p =~= text@.skip(start as int));
                    assert(comma_pieces(text@, start as int) == seq![p]);
                    assert(done + seq![p] =~= done.push(p));
                    assert(done.push(p).drop_last() =~= done);
                    done = done.push(p);
                    assert(strings_view(keywords@) =~= nonblank_trimmed(done));
                }
                return keywords;
            },
        }
    }
}


/// The first occurrence found from a position is the first one there is.
pub proof fn lemma_first_occurrence_at(hay: Seq<char>, needle: Seq<char>, from: int, i: int)
    requires
        0 <= from <= i,
        occurs_at(hay, needle, i),
        forall|j: int| from <= j < i ==> !occurs_at(hay, needle, j),
    ensures
        first_occurrence(hay, needle, from) == Some(i),
    decreases i - from,
{
    if from < i {
        lemma_first_occurrence_at(hay, needle, from + 1, i);
    }
}

/// No occurrence is found where there is none.
pub proof fn lemma_first_occurrence_none(hay: Seq<char>, needle: Seq<char>, from: int)
    requires
        0 <= from,
        forall|j: int| from <= j ==> !occurs_at(hay, needle, j),
    ensures
        first_occurrence(hay, needle, from) is None,
    decreases hay.len() + 1 - from,
{
    if from + needle.len() <= hay.len() {
        lemma_first_occurrence_none(hay, needle, from + 1);
    }
}

/// A character occurs at a position exactly when it stands there.
pub proof fn lemma_char_occurs_at(s: Seq<char>, c: char, j: int)
    ensures
        occurs_at(s, seq![c], j) <==> (0 <= j < s.len() && s[j] == c),
{
    if 0 <= j < s.len() {
        assert(s.subrange(j, j + 1) =~= seq![s[j]]);
        assert(s.subrange(j, j + 1)[0] == s[j]);
        assert(seq![c][0] == c);
    }
}

/// Text without commas is one piece.
pub proof fn lemma_comma_pieces_single(b: Seq<char>)
    requires
        !b.contains(','),
    ensures
        comma_pieces(b, 0) == seq![b],
{
    assert forall|j: int| 0 <= j implies !occurs_at(b, seq![','], j) by {
        lemma_char_occurs_at(b, ',', j);
        if 0 <= j < b.len() && b[j] == ',' {
            assert(b.contains(','));
        }
    }
    lemma_first_occurrence_none(b, seq![','], 0);
    assert(b.skip(0) =~= b);
}

/// Appending a comma and a piece without commas appends that piece.
pub proof fn lemma_comma_pieces_append(a: Seq<char>, b: Seq<char>, from: int)
    requires
        0 <= from <= a.len(),
        !b.contains(','),
    ensures
        comma_pieces(a + seq![','] + b, from) == comma_pieces(a, from) + seq![b],
    decreases a.len() + 1 - from,
{
    let s = a + seq![','] + b;
    let comma = seq![','];
    lemma_first_occurrence(a, comma, from);
    match first_occurrence(a, comma, from) {
        Some(i) => {
            lemma_char_occurs_at(a, ',', i);
            lemma_char_occurs_at(s, ',', i);
            assert forall|j: int| from <= j < i implies !occurs_at(s, comma, j) by {
                lemma_char_occurs_at(a, ',', j);
                lemma_char_occurs_at(s, ',', j);
            }
            lemma_first_occurrence_at(s, comma, from, i);
            lemma_comma_pieces_append(a, b, i + 1);
            assert(comma_pieces(a, from) == seq![a.subrange(from, i)] + comma_pieces(a, i + 1));
            assert(comma_pieces(s, from) == seq![s.subrange(from, i)] + comma_pieces(s, i + 1));
            assert(s.subrange(from, i) =~= a.subrange(from, i));
            assert(seq![a.subrange(from, i)] + (comma_pieces(a, i + 1) + seq![b]) =~= (seq![a.subrange(from, i)]
                + comma_pieces(a, i + 1)) + seq![b]);
        },
        None => {
            let n = a.len() as int;
            lemma_char_occurs_at(s, ',', n);
            assert forall|j: int| from <= j < n implies !occurs_at(s, comma, j) by {
                lemma_char_occurs_at(a, ',', j);
                lemma_char_occurs_at(s, ',', j);
            }
            lemma_first_occurrence_at(s, comma, from, n);
            assert forall|j: int| n + 1 <= j implies !occurs_at(s, comma, j) by {
                lemma_char_occurs_at(s, ',', j);
                if n + 1 <= j < s.len() && s[j] == ',' {
                    assert(b[j - n - 1] == s[j]);
                    assert(b.contains(','));
                }
            }
            lemma_first_occurrence_none(s, comma, n + 1);
            assert(s.skip(n + 1) =~= b);
            assert(comma_pieces(s, n + 1) == seq![b]);
            assert(s.subrange(from, n) =~= a.skip(from));
            assert(comma_pieces(a, from) == seq![a.skip(from)]);
            assert(comma_pieces(s, from) == seq![s.subrange(from, n)] + comma_pieces(s, n + 1));
        },
    }
}

} // verus!
