//! Decoding of character data and attributes of XML events.
use crate::keywords::{lemma_char_occurs_at, lemma_first_occurrence_at, lemma_first_occurrence_none};
use crate::text::{chars_of, first_occurrence, occurs_at};
use crate::xml::{escaped_char, escaped_text};
use vstd::prelude::*;

verus! {

/// Text with XML 1.0 line-end normalization applied: each `\r\n` and each
/// lone `\r` becomes `\n`.
pub open spec fn normalized_eols(s: Seq<char>) -> Seq<char>
    decreases s.len(),
{
    if s.len() == 0 {
        Seq::empty()
    } else if s[0] == '\r' {
        if s.len() > 1 && s[1] == '\n' {
            seq!['\n'] + normalized_eols(s.skip(2))
        } else {
            seq!['\n'] + normalized_eols(s.drop_first())
        }
    } else {
        seq![s[0]] + normalized_eols(s.drop_first())
    }
}

/// Applies XML 1.0 line-end normalization.
pub fn normalize_eols(s: &str) -> (out: String)
    ensures
        out@ == normalized_eols(s@),
{
    let chars = chars_of(s);
    let mut out = String::new();
    let mut i: usize = 0;
    assert(s@.skip(0) =~= s@);
    while i < chars.len()
        invariant
            chars@ == s@,
            i <= chars.len(),
            out@ + normalized_eols(s@.skip(i as int)) == normalized_eols(s@),
        decreases chars.len() - i,
    {
        let ghost rest = s@.skip(i as int);
        if chars[i] == '\r' {
            out.push('\n');
            if i + 1 < chars.len() && chars[i + 1] == '\n' {
                assert(rest.skip(2) =~= s@.skip(i + 2));
                i = i + 2;
            } else {
                assert(rest.drop_first() =~= s@.skip(i + 1));
                i = i + 1;
            }
        } else {
            out.push(chars[i]);
            assert(rest.drop_first() =~= s@.skip(i + 1));
            i = i + 1;
        }
        assert(out@ + normalized_eols(s@.skip(i as int)) =~= normalized_eols(s@));
    }
    assert(s@.skip(i as int) =~= Seq::<char>::empty());
    assert(out@ + Seq::<char>::empty() =~= out@);
    out
}

/// What `quick_xml::escape::unescape` gives for escaped text: the text with
/// its entity and character references resolved, or `None` when a reference
/// is malformed or unknown.
pub uninterp spec fn unescaped_text(raw: Seq<char>) -> Option<Seq<char>>;

/// Resolves the entity and character references of escaped text with
/// `quick_xml::escape::unescape`; a failure carries the description of the
/// escape error. Text without `&` is returned unchanged, and each of the
/// five predefined entities stands for its character. What the error's
/// description says is not stated.
#[verifier::external_body]
pub(crate) fn unescape(raw: &str) -> (out: Result<String, String>)
    ensures
        out is Ok ==> unescaped_text(raw@) == Some(out->Ok_0@),
        out is Err ==> unescaped_text(raw@) is None,
        !raw@.contains('&') ==> out is Ok && out->Ok_0@ == raw@,
        raw@ == "&lt;"@ ==> out is Ok && out->Ok_0@ == seq!['<'],
        raw@ == "&gt;"@ ==> out is Ok && out->Ok_0@ == seq!['>'],
        raw@ == "&amp;"@ ==> out is Ok && out->Ok_0@ == seq!['&'],
        raw@ == "&apos;"@ ==> out is Ok && out->Ok_0@ == seq!['\''],
        raw@ == "&quot;"@ ==> out is Ok && out->Ok_0@ == seq!['"'],
{
    quick_xml::escape::unescape(raw).map(|text| text.into_owned()).map_err(|error| error.to_string())
}

/// The decoded value of a text event: line ends normalized, then references
/// resolved; text without references is its own value.
pub open spec fn decoded_text(raw: Seq<char>) -> Option<Seq<char>> {
    let normalized = normalized_eols(raw);
    if normalized.contains('&') {
        unescaped_text(normalized)
    } else {
        Some(normalized)
    }
}

/// Whether a text holds a character.
fn holds_char(s: &str, c: char) -> (found: bool)
    ensures
        found == s@.contains(c),
{
    let chars = chars_of(s);
    let mut i: usize = 0;
    while i < chars.len()
        invariant
            chars@ == s@,
            i <= chars.len(),
            forall|j: int| 0 <= j < i ==> chars@[j] != c,
        decreases chars.len() - i,
    {
        if chars[i] == c {
            assert(s@[i as int] == c);
            return true;
        }
        i = i + 1;
    }
    false
}

/// Decodes the content of a text event; a failure carries the description
/// of the error.
pub fn decode_text(raw: &str) -> (out: Result<String, String>)
    ensures
        out matches Ok(s) ==> decoded_text(raw@) == Some(s@),
        out is Err ==> decoded_text(raw@) is None,
{
    let normalized = normalize_eols(raw);
    if holds_char(normalized.as_str(), '&') {
        unescape(normalized.as_str())
    } else {
        Ok(normalized)
    }
}

/// The decoded value of a general reference event `&name;`.
pub open spec fn decoded_reference(name: Seq<char>) -> Option<Seq<char>> {
    unescaped_text("&"@ + normalized_eols(name) + ";"@)
}

/// Decodes a general reference event; a failure carries the description of
/// the error.
pub fn decode_reference(name: &str) -> (out: Result<String, String>)
    ensures
        out matches Ok(s) ==> decoded_reference(name@) == Some(s@),
        out is Err ==> decoded_reference(name@) is None,
{
    let normalized = normalize_eols(name);
    let mut reference = String::new();
    reference.push('&');
    reference.append(normalized.as_str());
    reference.push(';');
    assert(reference@ =~= "&"@ + normalized@ + ";"@) by {
        reveal_strlit("&");
        reveal_strlit(";");
    }
    unescape(reference.as_str())
}

/// The local part of a qualified name: everything after the first `:`.
pub open spec fn local_name(name: Seq<char>) -> Seq<char> {
    match first_occurrence(name, seq![':'], 0) {
        Some(i) => name.skip(i + 1),
        None => name,
    }
}

/// Computes the local part of a qualified name.
pub fn local_name_of(name: &str) -> (out: String)
    ensures
        out@ == local_name(name@),
{
    let chars = chars_of(name);
    let colon = vec![':'];
    assert(colon@ =~= seq![':']);
    match crate::text::find_from(chars.as_slice(), colon.as_slice(), 0) {
        Some(i) => {
            proof {
                crate::text::lemma_first_occurrence(name@, seq![':'], 0);
                assert(crate::text::occurs_at(name@, seq![':'], i as int));
                assert(i + 1 <= chars@.len());
            }
            crate::text::string_of_range(chars.as_slice(), i + 1, chars.len())
        },
        None => name.to_owned(),
    }
}

/// Whether XML escaping replaces a character in text.
pub open spec fn is_markup_char(c: char) -> bool {
    c == '<' || c == '>' || c == '&' || c == '\'' || c == '"' || c == '\r'
}

/// Text that XML escaping leaves as it is.
pub open spec fn plain_text(s: Seq<char>) -> bool {
    forall|i: int| 0 <= i < s.len() ==> !is_markup_char(#[trigger] s[i])
}

pub proof fn lemma_plain_escaped(s: Seq<char>)
    requires
        plain_text(s),
    ensures
        escaped_text(s) == s,
    decreases s.len(),
{
    if s.len() > 0 {
        assert(plain_text(s.drop_last())) by {
            assert forall|i: int| 0 <= i < s.drop_last().len() implies !is_markup_char(#[trigger] s.drop_last()[i]) by {
                assert(s.drop_last()[i] == s[i]);
            }
        }
        lemma_plain_escaped(s.drop_last());
        assert(!is_markup_char(s[s.len() - 1]));
        assert(escaped_char(s.last()) == seq![s.last()]);
        assert(s.drop_last() + seq![s.last()] =~= s);
    }
}

pub proof fn lemma_plain_normalized(s: Seq<char>)
    requires
        plain_text(s),
    ensures
        normalized_eols(s) == s,
    decreases s.len(),
{
    if s.len() > 0 {
        assert(!is_markup_char(s[0]));
        assert(plain_text(s.drop_first())) by {
            assert forall|i: int| 0 <= i < s.drop_first().len() implies !is_markup_char(#[trigger] s.drop_first()[i]) by {
                assert(s.drop_first()[i] == s[i + 1]);
            }
        }
        lemma_plain_normalized(s.drop_first());
        assert(seq![s[0]] + s.drop_first() =~= s);
    }
}

/// Plain text reads back from its escaped form unchanged.
pub proof fn lemma_plain_decoded(s: Seq<char>)
    requires
        plain_text(s),
    ensures
        decoded_text(escaped_text(s)) == Some(s),
{
    lemma_plain_escaped(s);
    lemma_plain_normalized(s);
    if s.contains('&') {
        let i = choose|i: int| 0 <= i < s.len() && s[i] == '&';
        assert(!is_markup_char(s[i]));
    }
}

/// The local name of a qualified name with its first colon at `i`.
pub proof fn lemma_local_name_at(s: Seq<char>, i: int)
    requires
        0 <= i < s.len(),
        s[i] == ':',
        forall|j: int| 0 <= j < i ==> s[j] != ':',
    ensures
        local_name(s) == s.skip(i + 1),
{
    lemma_char_occurs_at(s, ':', i);
    assert forall|j: int| 0 <= j < i implies !occurs_at(s, seq![':'], j) by {
        lemma_char_occurs_at(s, ':', j);
    }
    lemma_first_occurrence_at(s, seq![':'], 0, i);
}

/// A name without a colon is its own local name.
pub proof fn lemma_local_name_plain(s: Seq<char>)
    requires
        forall|j: int| 0 <= j < s.len() ==> s[j] != ':',
    ensures
        local_name(s) == s,
{
    assert forall|j: int| 0 <= j implies !occurs_at(s, seq![':'], j) by {
        lemma_char_occurs_at(s, ':', j);
    }
    lemma_first_occurrence_none(s, seq![':'], 0);
}

} // verus!
