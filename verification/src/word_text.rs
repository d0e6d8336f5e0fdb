//! Text replacement in the paragraphs of a WordprocessingML document.
use crate::error::OfficeError;
use crate::replacement::{
    insensitive_ranges, insensitive_ranges_of, join_texts, sensitive_ranges,
    splice_text_nodes, texts_view, CaseMatching,
};
use crate::splice::{
    joined, lemma_spliced_nodes_joined, lemma_spliced_occurrences, occurrence_ranges, replaced_from,
    spliced_nodes,
};
use crate::text::chars_of;
use crate::xml::{escape_text, escaped_text, event_views, markup, write_events, EventView, XmlEvent, XmlTag};
use crate::xml_reader::{parsed_events, read_error, read_events};
use vstd::slice::slice_to_vec;
use vstd::string::StrSliceExecFns;
use vstd::utf8::encode_utf8;
use crate::xml_text::{decode_text, decoded_text};
use vstd::prelude::*;

verus! {

/// Whether a string equals a literal.
pub fn is_named(s: &str, literal: &str) -> (same: bool)
    ensures
        same == (s@ == literal@),
{
    let a = chars_of(s);
    let b = chars_of(literal);
    if a.len() != b.len() {
        assert(a@.len() != b@.len());
        return false;
    }
    let mut i: usize = 0;
    while i < a.len()
        invariant
            a.len() == b.len(),
            a@ == s@,
            b@ == literal@,
            i <= a.len(),
            forall|j: int| 0 <= j < i ==> a@[j] == b@[j],
        decreases a.len() - i,
    {
        if a[i] != b[i] {
            assert(a@[i as int] != b@[i as int]);
            return false;
        }
        i = i + 1;
    }
    assert(a@ =~= b@);
    true
}

/// Whether the event before index `k` left the reader inside a `w:t`
/// element: a `w:t` start tag opens one and a `w:t` end tag closes it.
pub open spec fn in_word_text(events: Seq<EventView>, k: int) -> bool
    decreases k,
{
    if k <= 0 || k > events.len() {
        false
    } else {
        match events[k - 1] {
            EventView::Start(name, _) => if name == "w:t"@ {
                true
            } else {
                in_word_text(events, k - 1)
            },
            EventView::End(name) => if name == "w:t"@ {
                false
            } else {
                in_word_text(events, k - 1)
            },
            _ => in_word_text(events, k - 1),
        }
    }
}

/// The indices, among the first `k` events, of the text events inside `w:t`
/// elements.
pub open spec fn text_slots(events: Seq<EventView>, k: int) -> Seq<int>
    decreases k,
{
    if k <= 0 || k > events.len() {
        Seq::empty()
    } else if events[k - 1] is Text && in_word_text(events, k - 1) {
        text_slots(events, k - 1).push(k - 1)
    } else {
        text_slots(events, k - 1)
    }
}

pub proof fn lemma_text_slots(events: Seq<EventView>, k: int)
    requires
        0 <= k <= events.len(),
    ensures
        forall|j: int| 0 <= j < text_slots(events, k).len() ==> 0 <= #[trigger] text_slots(events, k)[j] < k
            && events[text_slots(events, k)[j]] is Text,
    decreases k,
{
    if k > 0 {
        lemma_text_slots(events, k - 1);
    }
}

/// The decoded values of the text events at `slots`, or `None` when one of
/// them cannot be decoded.
pub open spec fn decoded_slots(events: Seq<EventView>, slots: Seq<int>) -> Option<Seq<Seq<char>>>
    decreases slots.len(),
{
    if slots.len() == 0 {
        Some(Seq::empty())
    } else {
        match decoded_slots(events, slots.drop_last()) {
            Some(texts) => match events[slots.last()] {
                EventView::Text(raw) => match decoded_text(raw) {
                    Some(t) => Some(texts.push(t)),
                    None => None,
                },
                _ => None,
            },
            None => None,
        }
    }
}

/// The ranges that a search matches in a text.
pub open spec fn match_ranges(text: Seq<char>, search: Seq<char>, case_matching: CaseMatching) -> Seq<(int, int)> {
    match case_matching {
        CaseMatching::Sensitive => occurrence_ranges(text, search, 0),
        CaseMatching::UnicodeInsensitive => insensitive_ranges_of(text, search),
    }
}

/// The events with the text event at `slots[j]` replaced by the escaped
/// new text `texts[j]`, for each `j < n`.
pub open spec fn rewritten(events: Seq<EventView>, slots: Seq<int>, texts: Seq<Seq<char>>, n: int) -> Seq<EventView>
    decreases n,
{
    if n <= 0 {
        events
    } else {
        rewritten(events, slots, texts, n - 1).update(slots[n - 1], EventView::Text(escaped_text(texts[n - 1])))
    }
}

/// A paragraph's events after replacement, with the number of matches:
/// the text inside its `w:t` elements is joined, the matches are found in
/// the joined text, and each text node receives its share of the result.
pub open spec fn replaced_paragraph(
    events: Seq<EventView>,
    search: Seq<char>,
    replacement: Seq<char>,
    case_matching: CaseMatching,
) -> Option<(nat, Seq<EventView>)> {
    let slots = text_slots(events, events.len() as int);
    match decoded_slots(events, slots) {
        Some(texts) => {
            let ranges = match_ranges(joined(texts), search, case_matching);
            let nodes = spliced_nodes(texts, ranges, replacement);
            Some((ranges.len(), rewritten(events, slots, nodes, slots.len() as int)))
        },
        None => None,
    }
}

/// Replaces the matches of `search` in one paragraph's events.
pub fn replace_paragraph_text(
    events: Vec<XmlEvent>,
    search: &str,
    replacement: &str,
    case_matching: CaseMatching,
) -> (result: Result<(usize, Vec<XmlEvent>), OfficeError>)
    requires
        search@.len() > 0,
    ensures
        match result {
            Ok((count, out)) => replaced_paragraph(event_views(events@), search@, replacement@, case_matching) == Some(
                (count as nat, event_views(out@)),
            ),
            Err(e) => replaced_paragraph(event_views(events@), search@, replacement@, case_matching) is None
                && e is InvalidDocument,
        },
{
    let ghost ev = event_views(events@);
    let mut in_text = false;
    let mut slots: Vec<usize> = Vec::new();
    let mut texts: Vec<Vec<char>> = Vec::new();
    let mut k: usize = 0;
    while k < events.len()
        invariant
            k <= events.len(),
            ev == event_views(events@),
            in_text == in_word_text(ev, k as int),
            slots@.map_values(|s: usize| s as int) == text_slots(ev, k as int),
            decoded_slots(ev, text_slots(ev, k as int)) == Some(texts_view(texts@)),
            texts@.len() == slots@.len(),
        decreases events.len() - k,
    {
        let ghost prev_slots = slots@;
        match &events[k] {
            XmlEvent::Start(tag) => {
                if is_named(tag.name.as_str(), "w:t") {
                    in_text = true;
                }
            },
            XmlEvent::End(name) => {
                if is_named(name.as_str(), "w:t") {
                    in_text = false;
                }
            },
            XmlEvent::Text(raw) => {
                if in_text {
                    match decode_text(raw.as_str()) {
                        Ok(text) => {
                            let ghost before = texts@;
                            slots.push(k);
                            texts.push(chars_of(text.as_str()));
                            proof {
                                assert(slots@.map_values(|s: usize| s as int) =~= prev_slots.map_values(|s: usize| s as int).push(k as int));
                                assert(text_slots(ev, k + 1).drop_last() =~= text_slots(ev, k as int));
                                assert(texts_view(texts@) =~= texts_view(before).push(text@));
                            }
                        },
                        Err(detail) => {
                            proof {
                                assert(text_slots(ev, k + 1).drop_last() =~= text_slots(ev, k as int));
                                lemma_text_slots_prefix(ev, k + 1, ev.len() as int);
                                lemma_decoded_prefix_none(ev, text_slots(ev, ev.len() as int), text_slots(ev, k + 1).len() as int);
                            }
                            let mut message = String::from_str("invalid Word text: ");
                            message.append(detail.as_str());
                            return Err(OfficeError::InvalidDocument(message));
                        },
                    }
                }
            },
            _ => {},
        }
        k = k + 1;
    }
    let all = join_texts(&texts);
    assert(all@.len() == all.len());
    let search_chars = chars_of(search);
    let replacement_chars = chars_of(replacement);
    let ranges = match case_matching {
        CaseMatching::Sensitive => sensitive_ranges(all.as_slice(), search_chars.as_slice()),
        CaseMatching::UnicodeInsensitive => insensitive_ranges(all.as_slice(), search),
    };
    let nodes = splice_text_nodes(&texts, ranges.as_slice(), replacement_chars.as_slice());
    assert(texts_view(nodes@).len() == nodes@.len());
    assert(texts_view(texts@).len() == texts@.len());
    let mut out = events;
    let mut j: usize = 0;
    let ghost slot_view = text_slots(ev, ev.len() as int);
    proof {
        lemma_text_slots(ev, ev.len() as int);
    }
    while j < slots.len()
        invariant
            j <= slots.len(),
            slots@.map_values(|s: usize| s as int) == slot_view,
            slot_view == text_slots(ev, ev.len() as int),
            forall|i: int| 0 <= i < slot_view.len() ==> 0 <= #[trigger] slot_view[i] < ev.len(),
            nodes@.len() == slots@.len(),
            out@.len() == ev.len(),
            event_views(out@) == rewritten(ev, slot_view, texts_view(nodes@), j as int),
        decreases slots.len() - j,
    {
        let slot = slots[j];
        assert(slot_view[j as int] == slot as int);
        let escaped = escape_text(string_from_chars(&nodes[j]).as_str());
        let ghost before = out@;
        out.set(slot, XmlEvent::Text(escaped));
        assert(event_views(out@) =~= event_views(before).update(slot as int, EventView::Text(escaped_text(texts_view(nodes@)[j as int]))));
        j = j + 1;
    }
    Ok((ranges.len(), out))
}

/// Builds a string from characters.
fn string_from_chars(chars: &Vec<char>) -> (s: String)
    ensures
        s@ == chars@,
{
    crate::text::string_of(chars.as_slice())
}

/// The text slots of a shorter prefix of the events begin the text slots of
/// a longer one.
proof fn lemma_text_slots_prefix(events: Seq<EventView>, a: int, b: int)
    requires
        0 <= a <= b <= events.len(),
    ensures
        text_slots(events, a).len() <= text_slots(events, b).len(),
        text_slots(events, b).take(text_slots(events, a).len() as int) == text_slots(events, a),
    decreases b - a,
{
    if a < b {
        lemma_text_slots_prefix(events, a, b - 1);
        assert(text_slots(events, b).take(text_slots(events, a).len() as int) =~= text_slots(events, b - 1).take(
            text_slots(events, a).len() as int,
        ));
    } else {
        assert(text_slots(events, b).take(text_slots(events, a).len() as int) =~= text_slots(events, a));
    }
}

/// Decoding fails when it fails on a prefix of the slots.
proof fn lemma_decoded_prefix_none(events: Seq<EventView>, slots: Seq<int>, n: int)
    requires
        0 <= n <= slots.len(),
        decoded_slots(events, slots.take(n)) is None,
    ensures
        decoded_slots(events, slots) is None,
    decreases slots.len() - n,
{
    if n < slots.len() {
        assert(slots.take(n + 1).drop_last() =~= slots.take(n));
        lemma_decoded_prefix_none(events, slots, n + 1);
    } else {
        assert(slots.take(n) =~= slots);
    }
}

/// A copy of an event.
pub fn copy_event(event: &XmlEvent) -> (copy: XmlEvent)
    ensures
        copy@ == event@,
{
    match event {
        XmlEvent::Start(t) => XmlEvent::Start(XmlTag { name: t.name.clone(), attributes: t.attributes.clone() }),
        XmlEvent::End(s) => XmlEvent::End(s.clone()),
        XmlEvent::Empty(t) => XmlEvent::Empty(XmlTag { name: t.name.clone(), attributes: t.attributes.clone() }),
        XmlEvent::Text(s) => XmlEvent::Text(s.clone()),
        XmlEvent::CData(s) => XmlEvent::CData(s.clone()),
        XmlEvent::Comment(s) => XmlEvent::Comment(s.clone()),
        XmlEvent::Decl(s) => XmlEvent::Decl(s.clone()),
        XmlEvent::PI(s) => XmlEvent::PI(s.clone()),
        XmlEvent::DocType(s) => XmlEvent::DocType(s.clone()),
        XmlEvent::GeneralRef(s) => XmlEvent::GeneralRef(s.clone()),
    }
}

/// The progress of a replacement through a document's events: the matches
/// counted, the events written, and the open paragraph's events.
pub struct ReplaceState {
    pub count: nat,
    pub out: Seq<EventView>,
    pub paragraph: Option<Seq<EventView>>,
}

/// One event of a document replacement: a `w:p` start tag opens a paragraph
/// (or joins the open one), the first `w:p` end tag closes it and its text is
/// replaced, and every other event is written out or joins the open
/// paragraph. `None` once a paragraph's text cannot be decoded or the count
/// exceeds the machine's range.
pub open spec fn replace_step(
    state: Option<ReplaceState>,
    event: EventView,
    search: Seq<char>,
    replacement: Seq<char>,
    case_matching: CaseMatching,
) -> Option<ReplaceState> {
    match state {
        None => None,
        Some(st) => match event {
            EventView::Start(name, _) if name == "w:p"@ => Some(
                ReplaceState {
                    paragraph: Some(
                        match st.paragraph {
                            Some(p) => p.push(event),
                            None => seq![event],
                        },
                    ),
                    ..st
                },
            ),
            EventView::End(name) if name == "w:p"@ && st.paragraph is Some => match replaced_paragraph(
                st.paragraph.unwrap().push(event),
                search,
                replacement,
                case_matching,
            ) {
                Some((c, evs)) => if st.count + c <= usize::MAX {
                    Some(ReplaceState { count: st.count + c, out: st.out + evs, paragraph: None })
                } else {
                    None
                },
                None => None,
            },
            _ => match st.paragraph {
                Some(p) => Some(ReplaceState { paragraph: Some(p.push(event)), ..st }),
                None => Some(ReplaceState { out: st.out.push(event), ..st }),
            },
        },
    }
}

/// The state after the first `n` events.
pub open spec fn replace_fold(
    events: Seq<EventView>,
    n: int,
    search: Seq<char>,
    replacement: Seq<char>,
    case_matching: CaseMatching,
) -> Option<ReplaceState>
    decreases n,
{
    if n <= 0 || n > events.len() {
        Some(ReplaceState { count: 0, out: Seq::empty(), paragraph: None })
    } else {
        replace_step(replace_fold(events, n - 1, search, replacement, case_matching), events[n - 1], search, replacement, case_matching)
    }
}

/// A document's events after replacement, with the number of matches:
/// `None` when a paragraph cannot be processed or is left unterminated.
pub open spec fn replaced_document(
    events: Seq<EventView>,
    search: Seq<char>,
    replacement: Seq<char>,
    case_matching: CaseMatching,
) -> Option<(nat, Seq<EventView>)> {
    match replace_fold(events, events.len() as int, search, replacement, case_matching) {
        Some(st) => if st.paragraph is None {
            Some((st.count, st.out))
        } else {
            None
        },
        None => None,
    }
}

/// The result of replacing text in the XML of a Word document: the number
/// of matches and the new XML. An empty search matches nothing and leaves
/// the XML as it is.
pub open spec fn document_replacement(
    xml: Seq<u8>,
    search: Seq<char>,
    replacement: Seq<char>,
    case_matching: CaseMatching,
) -> Option<(nat, Seq<u8>)> {
    if search.len() == 0 {
        Some((0, xml))
    } else {
        match parsed_events(xml, false) {
            Some(events) => match replaced_document(events, search, replacement, case_matching) {
                Some((count, out)) => Some((count, encode_utf8(markup(out)))),
                None => None,
            },
            None => None,
        }
    }
}

/// Replaces text in the paragraphs of a Word document's XML while keeping
/// the surrounding markup: matches may span several text runs of a
/// paragraph.
pub fn replace_document_text(
    xml: &[u8],
    search: &str,
    replacement: &str,
    case_matching: CaseMatching,
) -> (result: Result<(usize, Vec<u8>), OfficeError>)
    ensures
        match result {
            Ok((count, out)) => document_replacement(xml@, search@, replacement@, case_matching) == Some(
                (count as nat, out@),
            ),
            Err(e) => document_replacement(xml@, search@, replacement@, case_matching) is None && read_error(
                xml@,
                false,
                e,
            ),
        },
{
    if search.is_empty() {
        return Ok((0, slice_to_vec(xml)));
    }
    let events = read_events(xml, false)?;
    let ghost ev = event_views(events@);
    let mut out: Vec<XmlEvent> = Vec::new();
    let mut paragraph: Option<Vec<XmlEvent>> = None;
    let mut count: usize = 0;
    let mut k: usize = 0;
    assert(event_views(out@) =~= Seq::<EventView>::empty());
    while k < events.len()
        invariant
            k <= events.len(),
            ev == event_views(events@),
            search@.len() > 0,
            parsed_events(xml@, false) == Some(ev),
            replace_fold(ev, k as int, search@, replacement@, case_matching) == Some(
                ReplaceState {
                    count: count as nat,
                    out: event_views(out@),
                    paragraph: match paragraph {
                        Some(p) => Some(event_views(p@)),
                        None => None,
                    },
                },
            ),
        decreases events.len() - k,
    {
        let event = copy_event(&events[k]);
        let ghost e = event@;
        let is_paragraph_start = match &event {
            XmlEvent::Start(tag) => is_named(tag.name.as_str(), "w:p"),
            _ => false,
        };
        let is_paragraph_end = match &event {
            XmlEvent::End(name) => is_named(name.as_str(), "w:p") && paragraph.is_some(),
            _ => false,
        };
        if is_paragraph_start {
            match paragraph.take() {
                Some(mut p) => {
                    let ghost before = p@;
                    p.push(event);
                    assert(event_views(p@) =~= event_views(before).push(e));
                    paragraph = Some(p);
                },
                None => {
                    let mut p: Vec<XmlEvent> = Vec::new();
                    p.push(event);
                    assert(event_views(p@) =~= seq![e]);
                    paragraph = Some(p);
                },
            }
        } else if is_paragraph_end {
            let mut p = paragraph.take().unwrap();
            let ghost before = p@;
            p.push(event);
            assert(event_views(p@) =~= event_views(before).push(e));
            let (c, evs) = match replace_paragraph_text(p, search, replacement, case_matching) {
                Ok(done) => done,
                Err(error) => {
                    proof {
                        assert(ev[k as int] == e);
                    assert(ev.len() == events.len());
                        assert(ev.len() == events.len());
                        assert(replace_fold(ev, k + 1, search@, replacement@, case_matching) is None);
                        lemma_replace_fold_failed(ev, k + 1, ev.len() as int, search@, replacement@, case_matching);
                    }
                    return Err(error);
                },
            };
            if c > usize::MAX - count {
                proof {
                    assert(ev[k as int] == e);
                    assert(ev.len() == events.len());
                    assert(replace_fold(ev, k + 1, search@, replacement@, case_matching) is None);
                    lemma_replace_fold_failed(ev, k + 1, ev.len() as int, search@, replacement@, case_matching);
                }
                return Err(OfficeError::InvalidDocument(String::from_str("too many replacements")));
            }
            count = count + c;
            let ghost out_before = out@;
            let ghost added = evs@;
            let mut evs = evs;
            out.append(&mut evs);
            assert(event_views(out@) =~= event_views(out_before) + event_views(added));
        } else {
            match paragraph.take() {
                Some(mut p) => {
                    let ghost before = p@;
                    p.push(event);
                    assert(event_views(p@) =~= event_views(before).push(e));
                    paragraph = Some(p);
                },
                None => {
                    let ghost before = out@;
                    out.push(event);
                    assert(event_views(out@) =~= event_views(before).push(e));
                },
            }
        }
        k = k + 1;
    }
    if paragraph.is_some() {
        return Err(OfficeError::InvalidDocument(String::from_str("unterminated Word paragraph")));
    }
    let text = write_events(out.as_slice());
    Ok((count, text.as_str().as_bytes_vec()))
}

/// Once a replacement fails, it stays failed.
proof fn lemma_replace_fold_failed(
    events: Seq<EventView>,
    n: int,
    m: int,
    search: Seq<char>,
    replacement: Seq<char>,
    case_matching: CaseMatching,
)
    requires
        0 < n <= m <= events.len(),
        replace_fold(events, n, search, replacement, case_matching) is None,
    ensures
        replace_fold(events, m, search, replacement, case_matching) is None,
    decreases m - n,
{
    if n < m {
        lemma_replace_fold_failed(events, n, m - 1, search, replacement, case_matching);
    }
}

/// Case-sensitive replacement in a paragraph behaves as `str::replace` on
/// its text: the new text nodes, joined, are the joined old text with every
/// leftmost non-overlapping occurrence of the search text replaced, and the
/// number of matches is the number of those occurrences.
pub proof fn law_paragraph_replacement_is_str_replace(texts: Seq<Seq<char>>, search: Seq<char>, replacement: Seq<char>)
    requires
        search.len() > 0,
    ensures
        joined(spliced_nodes(texts, match_ranges(joined(texts), search, CaseMatching::Sensitive), replacement))
            == replaced_from(joined(texts), search, replacement, 0),
        match_ranges(joined(texts), search, CaseMatching::Sensitive).len() == occurrence_ranges(
            joined(texts),
            search,
            0,
        ).len(),
{
    let all = joined(texts);
    lemma_spliced_nodes_joined(texts, occurrence_ranges(all, search, 0), replacement);
    lemma_spliced_occurrences(all, search, replacement, 0);
}

/// Replacement rewrites only the text events inside `w:t` elements: the
/// paragraph keeps its number of events, and every other event (start and
/// end tags, attributes and all) is left as it was.
pub proof fn law_paragraph_replacement_keeps_markup(
    events: Seq<EventView>,
    search: Seq<char>,
    replacement: Seq<char>,
    case_matching: CaseMatching,
)
    requires
        replaced_paragraph(events, search, replacement, case_matching) is Some,
    ensures
        ({
            let out = replaced_paragraph(events, search, replacement, case_matching).unwrap().1;
            &&& out.len() == events.len()
            &&& forall|k: int|
                0 <= k < events.len() && !text_slots(events, events.len() as int).contains(k) ==> out[k] == events[k]
            &&& forall|k: int| 0 <= k < events.len() && !(events[k] is Text) ==> out[k] == events[k]
        }),
{
    let slots = text_slots(events, events.len() as int);
    let texts = decoded_slots(events, slots).unwrap();
    let ranges = match_ranges(joined(texts), search, case_matching);
    let nodes = spliced_nodes(texts, ranges, replacement);
    lemma_text_slots(events, events.len() as int);
    lemma_rewritten_keeps(events, slots, nodes, slots.len() as int);
}

proof fn lemma_rewritten_keeps(events: Seq<EventView>, slots: Seq<int>, texts: Seq<Seq<char>>, n: int)
    requires
        0 <= n <= slots.len(),
        forall|j: int| 0 <= j < slots.len() ==> 0 <= #[trigger] slots[j] < events.len() && events[slots[j]] is Text,
    ensures
        rewritten(events, slots, texts, n).len() == events.len(),
        forall|k: int|
            0 <= k < events.len() && !slots.take(n).contains(k) ==> rewritten(events, slots, texts, n)[k] == events[k],
        forall|k: int| 0 <= k < events.len() && !slots.contains(k) ==> rewritten(events, slots, texts, n)[k] == events[k],
        forall|k: int| 0 <= k < events.len() && !(events[k] is Text) ==> rewritten(events, slots, texts, n)[k] == events[k],
    decreases n,
{
    if n > 0 {
        lemma_rewritten_keeps(events, slots, texts, n - 1);
        assert forall|k: int| 0 <= k < events.len() && !slots.take(n).contains(k) implies rewritten(events, slots, texts, n)[k]
            == events[k] by {
            assert(slots.take(n)[n - 1] == slots[n - 1]);
            if slots.take(n - 1).contains(k) {
                let i = choose|i: int| 0 <= i < slots.take(n - 1).len() && #[trigger] slots.take(n - 1)[i] == k;
                assert(slots.take(n)[i] == k);
            }
        }
        assert forall|k: int| 0 <= k < events.len() && !slots.contains(k) implies rewritten(events, slots, texts, n)[k]
            == events[k] by {
            assert(slots[n - 1] != k);
        }
    }
}

proof fn lemma_replace_fold_take(
    events: Seq<EventView>,
    m: int,
    n: int,
    search: Seq<char>,
    replacement: Seq<char>,
    case_matching: CaseMatching,
)
    requires
        0 <= n <= m <= events.len(),
    ensures
        replace_fold(events.take(m), n, search, replacement, case_matching) == replace_fold(
            events,
            n,
            search,
            replacement,
            case_matching,
        ),
    decreases n,
{
    if n > 0 {
        lemma_replace_fold_take(events, m, n - 1, search, replacement, case_matching);
        assert(events.take(m)[n - 1] == events[n - 1]);
    }
}

/// Whether events form one whole paragraph: a `w:p` start tag, then events
/// without a `w:p` end tag, then a `w:p` end tag.
pub open spec fn whole_paragraph(p: Seq<EventView>) -> bool {
    &&& p.len() >= 2
    &&& p[0] is Start && p[0]->Start_0 == "w:p"@
    &&& p.last() == EventView::End("w:p"@)
    &&& forall|i: int| 0 < i < p.len() - 1 ==> #[trigger] p[i] != EventView::End("w:p"@)
}

proof fn lemma_paragraph_prefix(
    a: Seq<EventView>,
    p: Seq<EventView>,
    j: int,
    c1: nat,
    o1: Seq<EventView>,
    search: Seq<char>,
    replacement: Seq<char>,
    case_matching: CaseMatching,
)
    requires
        replace_fold(a, a.len() as int, search, replacement, case_matching) == Some(
            ReplaceState { count: c1, out: o1, paragraph: None },
        ),
        whole_paragraph(p),
        1 <= j <= p.len() - 1,
    ensures
        replace_fold(a + p, a.len() + j, search, replacement, case_matching) == Some(
            ReplaceState { count: c1, out: o1, paragraph: Some(p.take(j)) },
        ),
    decreases j,
{
    let w = a + p;
    let n = a.len() as int;
    if j == 1 {
        assert(w.take(n) =~= a);
        lemma_replace_fold_take(w, n, n, search, replacement, case_matching);
        assert(w[n] == p[0]);
        assert(p.take(1) =~= seq![p[0]]);
    } else {
        lemma_paragraph_prefix(a, p, j - 1, c1, o1, search, replacement, case_matching);
        assert(w[n + j - 1] == p[j - 1]);
        assert(p[j - 1] != EventView::End("w:p"@));
        assert(p.take(j) =~= p.take(j - 1).push(p[j - 1]));
    }
}

/// Replacing text in a document treats each paragraph on its own: a whole
/// paragraph added after a document adds its own matches to the count and
/// its own replaced events to the output, whatever matches came before.
pub proof fn law_replacement_is_per_paragraph(
    a: Seq<EventView>,
    p: Seq<EventView>,
    search: Seq<char>,
    replacement: Seq<char>,
    case_matching: CaseMatching,
)
    requires
        replaced_document(a, search, replacement, case_matching) is Some,
        whole_paragraph(p),
        replaced_paragraph(p, search, replacement, case_matching) is Some,
        replaced_document(a, search, replacement, case_matching).unwrap().0 + replaced_paragraph(
            p,
            search,
            replacement,
            case_matching,
        ).unwrap().0 <= usize::MAX,
    ensures
        ({
            let (c1, o1) = replaced_document(a, search, replacement, case_matching).unwrap();
            let (c2, o2) = replaced_paragraph(p, search, replacement, case_matching).unwrap();
            replaced_document(a + p, search, replacement, case_matching) == Some((c1 + c2, o1 + o2))
        }),
{
    let (c1, o1) = replaced_document(a, search, replacement, case_matching).unwrap();
    let w = a + p;
    let n = a.len() as int;
    let last = p.len() - 1;
    lemma_paragraph_prefix(a, p, last, c1, o1, search, replacement, case_matching);
    assert(w[n + last] == p.last());
    assert(p.take(last).push(p.last()) =~= p);
}

/// Replacing text in a document writes an event outside any paragraph, other
/// than a `w:p` start tag, as it is, and adds no match.
pub proof fn law_replacement_keeps_events_outside_paragraphs(
    a: Seq<EventView>,
    e: EventView,
    search: Seq<char>,
    replacement: Seq<char>,
    case_matching: CaseMatching,
)
    requires
        replaced_document(a, search, replacement, case_matching) is Some,
        !(e is Start && e->Start_0 == "w:p"@),
    ensures
        ({
            let (c1, o1) = replaced_document(a, search, replacement, case_matching).unwrap();
            replaced_document(a.push(e), search, replacement, case_matching) == Some((c1, o1.push(e)))
        }),
{
    let w = a.push(e);
    let n = a.len() as int;
    assert(w.take(n) =~= a);
    lemma_replace_fold_take(w, n, n, search, replacement, case_matching);
    assert(w[n] == e);
}

/// A document with no events has no match and is written as nothing.
pub proof fn law_replacement_of_no_events(search: Seq<char>, replacement: Seq<char>, case_matching: CaseMatching)
    ensures
        replaced_document(Seq::empty(), search, replacement, case_matching) == Some(
            (0nat, Seq::<EventView>::empty()),
        ),
{
}

} // verus!
