//! Registering a part in package XML by inserting markup before the root
//! element's closing tag.
use crate::error::{invalid_document_starting, invalid_document_with, OfficeError};
use crate::text::{chars_of, find_from, first_occurrence, lemma_first_occurrence, occurs_at, string_of_range};
use vstd::prelude::*;
use vstd::slice::slice_to_vec;
use vstd::string::StrSliceExecFns;
use vstd::utf8::{decode_utf8, encode_utf8, valid_utf8};

verus! {

/// Decodes UTF-8 bytes (`std::str::from_utf8`): an error, carrying the
/// description of the `Utf8Error`, when they are not valid UTF-8. What that
/// description says is not stated.
#[verifier::external_body]
pub(crate) fn utf8_text(bytes: &[u8]) -> (text: Result<String, String>)
    ensures
        text is Ok <==> valid_utf8(bytes@),
        text is Ok ==> text->Ok_0@ == decode_utf8(bytes@),
{
    std::str::from_utf8(bytes).map(|text| text.to_owned()).map_err(|error| error.to_string())
}

/// The last position where `needle` occurs in `hay`, at or before `below`.
pub open spec fn last_occurrence(hay: Seq<char>, needle: Seq<char>, below: int) -> Option<int>
    decreases below + 1,
{
    if below < 0 {
        None
    } else if occurs_at(hay, needle, below) {
        Some(below)
    } else {
        last_occurrence(hay, needle, below - 1)
    }
}

/// `s` with every leading copy of `prefix` removed.
pub open spec fn without_prefixes(s: Seq<char>, prefix: Seq<char>) -> Seq<char>
    decreases s.len(),
{
    if prefix.len() > 0 && prefix.len() <= s.len() && s.take(prefix.len() as int) == prefix {
        without_prefixes(s.skip(prefix.len() as int), prefix)
    } else {
        s
    }
}

/// `s` with every trailing `c` removed.
pub open spec fn without_trailing(s: Seq<char>, c: char) -> Seq<char>
    decreases s.len(),
{
    if s.len() > 0 && s.last() == c {
        without_trailing(s.drop_last(), c)
    } else {
        s
    }
}

/// The root element's name that a closing tag such as `</Types>` names.
pub open spec fn closing_tag_root(closing_tag: Seq<char>) -> Seq<char> {
    without_trailing(without_prefixes(closing_tag, "</"@), '>')
}

/// XML with `addition` placed before the root's closing tag: unchanged when
/// it already holds `already_present`; otherwise inserted before the first
/// occurrence of the closing tag, when that changes the XML; otherwise, when
/// the root element is self-closing, it is reopened around `addition`.
/// `None` when there is neither a closing tag nor a self-closed root.
pub open spec fn inserted_before_closing_tag(
    xml: Seq<char>,
    closing_tag: Seq<char>,
    addition: Seq<char>,
    already_present: Seq<char>,
) -> Option<Seq<char>> {
    if first_occurrence(xml, already_present, 0) is Some {
        Some(xml)
    } else if first_occurrence(xml, closing_tag, 0) is Some && addition.len() > 0 {
        let i = first_occurrence(xml, closing_tag, 0).unwrap();
        Some(xml.take(i) + addition + xml.skip(i))
    } else {
        let root_name = closing_tag_root(closing_tag);
        match last_occurrence(xml, "/>"@, xml.len() - 2) {
            None => None,
            Some(index) => {
                let root = xml.take(index);
                if first_occurrence(root, "<"@ + root_name, 0) is Some {
                    Some(root + ">"@ + addition + "</"@ + root_name + ">"@)
                } else {
                    None
                }
            },
        }
    }
}

/// The bytes form of [`inserted_before_closing_tag`]: `None` also when the
/// XML is not UTF-8.
pub open spec fn bytes_inserted_before_closing_tag(
    xml: Seq<u8>,
    closing_tag: Seq<char>,
    addition: Seq<char>,
    already_present: Seq<char>,
) -> Option<Seq<u8>> {
    if !valid_utf8(xml) {
        None
    } else {
        match inserted_before_closing_tag(decode_utf8(xml), closing_tag, addition, already_present) {
            Some(text) => Some(encode_utf8(text)),
            None => None,
        }
    }
}

/// The message of the error for XML that has neither the closing tag nor a
/// self-closed root.
pub open spec fn missing_closing_tag_message(closing_tag: Seq<char>) -> Seq<char> {
    "Invalid package XML: missing "@ + closing_tag
}

/// The error for XML that has neither the closing tag nor a self-closed root.
fn missing_closing_tag(closing_tag: &str) -> (e: OfficeError)
    ensures
        invalid_document_with(e, missing_closing_tag_message(closing_tag@)),
{
    let mut message = String::from_str("Invalid package XML: missing ");
    message.append(closing_tag);
    OfficeError::InvalidDocument(message)
}

/// Finds the last occurrence of `needle` that starts at or before `below`.
fn find_last(hay: &[char], needle: &[char], below: usize) -> (found: Option<usize>)
    requires
        below <= hay.len(),
    ensures
        found matches Some(i) ==> last_occurrence(hay@, needle@, below as int) == Some(i as int),
        found is None ==> last_occurrence(hay@, needle@, below as int) is None,
{
    let mut i: usize = below;
    loop
        invariant
            i <= below <= hay.len(),
            last_occurrence(hay@, needle@, below as int) == last_occurrence(hay@, needle@, i as int),
        decreases i,
    {
        if crate::text::matches_at(hay, needle, i) {
            return Some(i);
        }
        if i == 0 {
            return None;
        }
        i = i - 1;
    }
}

/// Removes leading copies of `prefix`.
fn strip_prefixes(s: &[char], prefix: &[char]) -> (out: Vec<char>)
    ensures
        out@ == without_prefixes(s@, prefix@),
{
    let mut start: usize = 0;
    assert(s@.skip(0) =~= s@);
    while prefix.len() > 0 && start <= s.len() && crate::text::matches_at(s, prefix, start)
        invariant
            start <= s.len(),
            without_prefixes(s@, prefix@) == without_prefixes(s@.skip(start as int), prefix@),
        decreases s.len() - start,
    {
        assert(s@.skip(start as int).take(prefix@.len() as int) =~= s@.subrange(start as int, start + prefix@.len()));
        assert(s@.skip(start as int).skip(prefix@.len() as int) =~= s@.skip(start + prefix@.len()));
        start = start + prefix.len();
    }
    if prefix.len() > 0 && prefix.len() <= s.len() - start {
        assert(s@.skip(start as int).take(prefix@.len() as int) =~= s@.subrange(start as int, start + prefix@.len()));
    }
    let mut out: Vec<char> = Vec::new();
    let mut k = start;
    while k < s.len()
        invariant
            start <= k <= s.len(),
            out@ == s@.subrange(start as int, k as int),
        decreases s.len() - k,
    {
        out.push(s[k]);
        k = k + 1;
        assert(out@ =~= s@.subrange(start as int, k as int));
    }
    assert(s@.subrange(start as int, s.len() as int) =~= s@.skip(start as int));
    out
}

/// Removes trailing copies of `c`.
fn strip_trailing(s: Vec<char>, c: char) -> (out: Vec<char>)
    ensures
        out@ == without_trailing(s@, c),
{
    let ghost initial = s@;
    let mut s = s;
    while s.len() > 0 && s[s.len() - 1] == c
        invariant
            without_trailing(s@, c) == without_trailing(initial, c),
        decreases s.len(),
    {
        let ghost before = s@;
        s.pop();
        assert(s@ =~= before.drop_last());
    }
    s
}

/// Appends characters to a string.
fn push_all(out: &mut String, chars: &[char])
    ensures
        final(out)@ == old(out)@ + chars@,
{
    let mut i: usize = 0;
    while i < chars.len()
        invariant
            i <= chars.len(),
            out@ == old(out)@ + chars@.take(i as int),
        decreases chars.len() - i,
    {
        out.push(chars[i]);
        i = i + 1;
        assert(out@ =~= old(out)@ + chars@.take(i as int));
    }
    assert(chars@.take(chars.len() as int) =~= chars@);
}

/// Places `addition` before the closing tag of the root element of the XML
/// in `xml`, unless the XML already holds `already_present`.
pub fn insert_before_closing_tag(
    xml: &[u8],
    closing_tag: &str,
    addition: &str,
    already_present: &str,
) -> (updated: Result<Vec<u8>, OfficeError>)
    ensures
        match updated {
            Ok(bytes) => bytes_inserted_before_closing_tag(xml@, closing_tag@, addition@, already_present@) == Some(bytes@),
            Err(e) => bytes_inserted_before_closing_tag(xml@, closing_tag@, addition@, already_present@) is None
                && e is InvalidDocument && (valid_utf8(xml@) ==> invalid_document_with(e, missing_closing_tag_message(closing_tag@)))
                && (!valid_utf8(xml@) ==> invalid_document_starting(e, "Invalid package XML: "@)),
        },
{
    let text = match utf8_text(xml) {
        Ok(text) => text,
        Err(detail) => {
            let prefix = "Invalid package XML: ";
            let mut message = String::from_str(prefix);
            message.append(detail.as_str());
            assert(message@.subrange(0, prefix@.len() as int) =~= prefix@);
            return Err(OfficeError::InvalidDocument(message));
        },
    };
    proof {
        vstd::utf8::decode_utf8_encode_utf8(xml@);
    }
    let chars = chars_of(text.as_str());
    let present = chars_of(already_present);
    let closing = chars_of(closing_tag);
    if find_from(chars.as_slice(), present.as_slice(), 0).is_some() {
        return Ok(slice_to_vec(xml));
    }
    let n = chars.len();
    if let Some(i) = find_from(chars.as_slice(), closing.as_slice(), 0) {
        if !addition.is_empty() {
            proof {
                lemma_first_occurrence(chars@, closing@, 0);
            }
            let mut out = string_of_range(chars.as_slice(), 0, i);
            out.append(addition);
            let after = string_of_range(chars.as_slice(), i, n);
            out.append(after.as_str());
            assert(chars@.subrange(0, i as int) =~= chars@.take(i as int));
            assert(chars@.subrange(i as int, n as int) =~= chars@.skip(i as int));
            return Ok(out.as_str().as_bytes_vec());
        }
    }
    let opener = vec!['<', '/'];
    let self_close = vec!['/', '>'];
    proof {
        reveal_strlit("</");
        reveal_strlit("/>");
        reveal_strlit("<");
        reveal_strlit(">");
        assert(opener@ =~= "</"@);
        assert(self_close@ =~= "/>"@);
    }
    let root_name = strip_trailing(strip_prefixes(closing.as_slice(), opener.as_slice()), '>');
    if n < 2 {
        return Err(missing_closing_tag(closing_tag));
    }
    let index = match find_last(chars.as_slice(), self_close.as_slice(), n - 2) {
        Some(index) => index,
        None => return Err(missing_closing_tag(closing_tag)),
    };
    proof {
        lemma_last_occurrence(chars@, "/>"@, n - 2);
    }
    let root = string_of_range(chars.as_slice(), 0, index);
    let root_chars = chars_of(root.as_str());
    let mut open_tag: Vec<char> = vec!['<'];
    let mut k: usize = 0;
    while k < root_name.len()
        invariant
            k <= root_name.len(),
            open_tag@ == "<"@ + root_name@.take(k as int),
        decreases root_name.len() - k,
    {
        open_tag.push(root_name[k]);
        k = k + 1;
        assert(open_tag@ =~= "<"@ + root_name@.take(k as int));
    }
    assert(root_name@.take(root_name.len() as int) =~= root_name@);
    if find_from(root_chars.as_slice(), open_tag.as_slice(), 0).is_none() {
        return Err(missing_closing_tag(closing_tag));
    }
    let mut out = root;
    out.push('>');
    out.append(addition);
    out.push('<');
    out.push('/');
    push_all(&mut out, root_name.as_slice());
    out.push('>');
    assert(chars@.subrange(0, index as int) =~= chars@.take(index as int));
    assert(out@ =~= chars@.take(index as int) + ">"@ + addition@ + "</"@ + root_name@ + ">"@);
    Ok(out.as_str().as_bytes_vec())
}

/// A part of text that occurs in an addition occurs in the text around it.
proof fn lemma_occurs_within(pre: Seq<char>, addition: Seq<char>, post: Seq<char>, needle: Seq<char>, k: int)
    requires
        occurs_at(addition, needle, k),
    ensures
        first_occurrence(pre + addition + post, needle, 0) is Some,
{
    let whole = pre + addition + post;
    let at = pre.len() + k;
    assert(whole.subrange(at, at + needle.len()) =~= addition.subrange(k, k + needle.len()));
    assert(occurs_at(whole, needle, at));
    lemma_first_occurrence(whole, needle, 0);
}

/// Text that registration produces holds its marker, provided the addition
/// holds it.
pub proof fn lemma_inserted_holds_marker(
    xml: Seq<char>,
    closing_tag: Seq<char>,
    addition: Seq<char>,
    marker: Seq<char>,
    k: int,
)
    requires
        occurs_at(addition, marker, k),
        inserted_before_closing_tag(xml, closing_tag, addition, marker) is Some,
    ensures
        first_occurrence(
            inserted_before_closing_tag(xml, closing_tag, addition, marker).unwrap(),
            marker,
            0,
        ) is Some,
{
    if first_occurrence(xml, marker, 0) is Some {
    } else if first_occurrence(xml, closing_tag, 0) is Some && addition.len() > 0 {
        let i = first_occurrence(xml, closing_tag, 0).unwrap();
        lemma_occurs_within(xml.take(i), addition, xml.skip(i), marker, k);
    } else {
        let root_name = closing_tag_root(closing_tag);
        let index = last_occurrence(xml, "/>"@, xml.len() - 2).unwrap();
        let root = xml.take(index);
        assert(root + ">"@ + addition + "</"@ + root_name + ">"@ =~= (root + ">"@) + addition + ("</"@ + root_name
            + ">"@));
        lemma_occurs_within(root + ">"@, addition, "</"@ + root_name + ">"@, marker, k);
    }
}

/// The bytes form of [`lemma_inserted_holds_marker`].
pub proof fn lemma_bytes_hold_marker(xml: Seq<u8>, closing_tag: Seq<char>, addition: Seq<char>, marker: Seq<char>, k: int)
    requires
        occurs_at(addition, marker, k),
        bytes_inserted_before_closing_tag(xml, closing_tag, addition, marker) is Some,
    ensures
        ({
            let bytes = bytes_inserted_before_closing_tag(xml, closing_tag, addition, marker).unwrap();
            valid_utf8(bytes) && first_occurrence(decode_utf8(bytes), marker, 0) is Some
        }),
{
    let text = inserted_before_closing_tag(decode_utf8(xml), closing_tag, addition, marker).unwrap();
    lemma_inserted_holds_marker(decode_utf8(xml), closing_tag, addition, marker, k);
    vstd::utf8::encode_utf8_valid_utf8(text);
    vstd::utf8::encode_utf8_decode_utf8(text);
}

/// XML that already holds the marker is left as it is.
pub proof fn lemma_present_marker_keeps_bytes(xml: Seq<u8>, closing_tag: Seq<char>, addition: Seq<char>, marker: Seq<char>)
    requires
        valid_utf8(xml),
        first_occurrence(decode_utf8(xml), marker, 0) is Some,
    ensures
        bytes_inserted_before_closing_tag(xml, closing_tag, addition, marker) == Some(xml),
{
    vstd::utf8::decode_utf8_encode_utf8(xml);
}

/// Inserting an addition that holds its own marker a second time changes
/// nothing: the first insertion already put the marker in place.
pub proof fn law_insertion_is_idempotent(xml: Seq<u8>, closing_tag: Seq<char>, addition: Seq<char>, marker: Seq<char>, k: int)
    requires
        occurs_at(addition, marker, k),
        bytes_inserted_before_closing_tag(xml, closing_tag, addition, marker) is Some,
    ensures
        ({
            let once = bytes_inserted_before_closing_tag(xml, closing_tag, addition, marker).unwrap();
            bytes_inserted_before_closing_tag(once, closing_tag, addition, marker) == Some(once)
        }),
{
    let once = bytes_inserted_before_closing_tag(xml, closing_tag, addition, marker).unwrap();
    lemma_bytes_hold_marker(xml, closing_tag, addition, marker, k);
    lemma_present_marker_keeps_bytes(once, closing_tag, addition, marker);
}

proof fn lemma_last_occurrence(hay: Seq<char>, needle: Seq<char>, below: int)
    ensures
        last_occurrence(hay, needle, below) matches Some(i) ==> 0 <= i <= below && occurs_at(hay, needle, i),
    decreases below + 1,
{
    if below >= 0 && !occurs_at(hay, needle, below) {
        lemma_last_occurrence(hay, needle, below - 1);
    }
}

} // verus!
