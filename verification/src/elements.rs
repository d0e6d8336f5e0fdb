//! The text elements under the root of a simple XML document, such as the
//! core and extended properties parts.
use crate::error::OfficeError;
use crate::xml::{escaped_text, event_views, EventView, XmlEvent};
use crate::xml_reader::{parsed_events, read_error, read_events};
use crate::xml_build::{optional_element, text_element};
use crate::xml_text::{
    decode_reference, decode_text, decoded_reference, decoded_text, lemma_plain_decoded, local_name, local_name_of,
    normalize_eols, normalized_eols, plain_text,
};
use crate::reader_pieces::{
    char_index, lemma_char_index, lemma_escaped_cons, lemma_escaped_no_cr, lemma_markup_char_reference,
    lemma_pieces_cons, lemma_reader_events_append, lemma_reader_events_one, lemma_run_decoded, reader_events,
    reference_name, references_resolve, text_pieces,
};
use crate::xml_text::is_markup_char;
use vstd::prelude::*;
use vstd::string::StringExecFns;

verus! {

/// A child element of the root with its local name and text value.
#[derive(Debug)]
pub struct TextElement {
    pub name: String,
    pub value: String,
}

/// The views of a list of text elements.
pub open spec fn elements_view(v: Seq<TextElement>) -> Seq<(Seq<char>, Seq<char>)> {
    v.map_values(|e: TextElement| (e.name@, e.value@))
}

/// The progress of collecting text elements: the element depth, the element
/// being collected (its local name, value so far and depth) and the elements
/// collected.
pub struct ElementsState {
    pub depth: int,
    pub current: Option<(Seq<char>, Seq<char>, int)>,
    pub elements: Seq<(Seq<char>, Seq<char>)>,
}

/// One event of collecting text elements. A start tag below the root starts
/// an element when none is being collected; character data, references and
/// CDATA sections add to its value; the end tag at its depth finishes it.
/// An empty-element tag anywhere inside the root is an element with an empty
/// value. `None` once text cannot be decoded.
pub open spec fn elements_step(state: Option<ElementsState>, event: EventView) -> Option<ElementsState> {
    match state {
        None => None,
        Some(st) => match event {
            EventView::Start(name, _) => if st.depth + 1 > 1 && st.current is None {
                Some(ElementsState { depth: st.depth + 1, current: Some((local_name(name), Seq::empty(), st.depth + 1)), ..st })
            } else {
                Some(ElementsState { depth: st.depth + 1, ..st })
            },
            EventView::Empty(name, _) => if st.depth >= 1 {
                Some(ElementsState { elements: st.elements.push((local_name(name), Seq::empty())), ..st })
            } else {
                Some(st)
            },
            EventView::Text(raw) => match st.current {
                Some(c) => match decoded_text(raw) {
                    Some(t) => Some(ElementsState { current: Some((c.0, c.1 + t, c.2)), ..st }),
                    None => None,
                },
                None => Some(st),
            },
            EventView::GeneralRef(raw) => match st.current {
                Some(c) => match decoded_reference(raw) {
                    Some(t) => Some(ElementsState { current: Some((c.0, c.1 + t, c.2)), ..st }),
                    None => None,
                },
                None => Some(st),
            },
            EventView::CData(raw) => match st.current {
                Some(c) => Some(ElementsState { current: Some((c.0, c.1 + normalized_eols(raw), c.2)), ..st }),
                None => Some(st),
            },
            EventView::End(_) => {
                let depth = if st.depth > 0 { st.depth - 1 } else { 0 };
                match st.current {
                    Some(c) => if c.2 == st.depth {
                        Some(ElementsState { depth, current: None, elements: st.elements.push((c.0, c.1)) })
                    } else {
                        Some(ElementsState { depth, ..st })
                    },
                    None => Some(ElementsState { depth, ..st }),
                }
            },
            _ => Some(st),
        },
    }
}

/// The state after the first `n` events.
pub open spec fn elements_fold(events: Seq<EventView>, n: int) -> Option<ElementsState>
    decreases n,
{
    if n <= 0 || n > events.len() {
        Some(ElementsState { depth: 0, current: None, elements: Seq::empty() })
    } else {
        elements_step(elements_fold(events, n - 1), events[n - 1])
    }
}

/// The text elements of a document's events.
pub open spec fn events_elements(events: Seq<EventView>) -> Option<Seq<(Seq<char>, Seq<char>)>> {
    match elements_fold(events, events.len() as int) {
        Some(st) => Some(st.elements),
        None => None,
    }
}

/// The text elements of an XML document.
pub open spec fn xml_elements(xml: Seq<u8>) -> Option<Seq<(Seq<char>, Seq<char>)>> {
    match parsed_events(xml, false) {
        Some(events) => events_elements(events),
        None => None,
    }
}

proof fn lemma_elements_failed(events: Seq<EventView>, n: int, m: int)
    requires
        0 < n <= m <= events.len(),
        elements_fold(events, n) is None,
    ensures
        elements_fold(events, m) is None,
    decreases m - n,
{
    if n < m {
        lemma_elements_failed(events, n, m - 1);
    }
}

fn invalid_property_text(detail: String) -> (e: OfficeError)
    ensures
        e is InvalidDocument,
{
    let mut message = String::from_str("Invalid metadata property text: ");
    message.append(detail.as_str());
    OfficeError::InvalidDocument(message)
}

/// Collects the text elements of a document's events.
pub fn collect_text_elements(events: &Vec<XmlEvent>) -> (elements: Result<Vec<TextElement>, OfficeError>)
    ensures
        match elements {
            Ok(v) => events_elements(event_views(events@)) == Some(elements_view(v@)),
            Err(e) => events_elements(event_views(events@)) is None && e is InvalidDocument,
        },
{
    let ghost ev = event_views(events@);
    let mut depth: usize = 0;
    let mut current: Option<(String, String, usize)> = None;
    let mut elements: Vec<TextElement> = Vec::new();
    let mut k: usize = 0;
    assert(elements_view(elements@) =~= Seq::<(Seq<char>, Seq<char>)>::empty());
    while k < events.len()
        invariant
            k <= events.len(),
            ev == event_views(events@),
            depth <= k,
            elements_fold(ev, k as int) == Some(
                ElementsState {
                    depth: depth as int,
                    current: match current {
                        Some(c) => Some((c.0@, c.1@, c.2 as int)),
                        None => None,
                    },
                    elements: elements_view(elements@),
                },
            ),
        decreases events.len() - k,
    {
        let ghost before = elements@;
        match &events[k] {
            XmlEvent::Start(tag) => {
                depth = depth + 1;
                if depth > 1 && current.is_none() {
                    current = Some((local_name_of(tag.name.as_str()), String::new(), depth));
                }
            },
            XmlEvent::Empty(tag) => {
                if depth >= 1 {
                    elements.push(TextElement { name: local_name_of(tag.name.as_str()), value: String::new() });
                    assert(elements_view(elements@) =~= elements_view(before).push((local_name(tag.name@), Seq::empty())));
                }
            },
            XmlEvent::Text(raw) => {
                if let Some((name, value, d)) = current.take() {
                    match decode_text(raw.as_str()) {
                        Ok(t) => {
                            let mut value = value;
                            value.append(t.as_str());
                            current = Some((name, value, d));
                        },
                        Err(detail) => {
                            proof {
                                lemma_elements_failed(ev, k + 1, ev.len() as int);
                            }
                            return Err(invalid_property_text(detail));
                        },
                    }
                }
            },
            XmlEvent::GeneralRef(raw) => {
                if let Some((name, value, d)) = current.take() {
                    match decode_reference(raw.as_str()) {
                        Ok(t) => {
                            let mut value = value;
                            value.append(t.as_str());
                            current = Some((name, value, d));
                        },
                        Err(detail) => {
                            proof {
                                lemma_elements_failed(ev, k + 1, ev.len() as int);
                            }
                            return Err(invalid_property_text(detail));
                        },
                    }
                }
            },
            XmlEvent::CData(raw) => {
                if let Some((name, value, d)) = current.take() {
                    let t = normalize_eols(raw.as_str());
                    let mut value = value;
                    value.append(t.as_str());
                    current = Some((name, value, d));
                }
            },
            XmlEvent::End(_) => {
                let finished = match &current {
                    Some(c) => c.2 == depth,
                    None => false,
                };
                if finished {
                    let (name, value, _) = current.take().unwrap();
                    elements.push(TextElement { name, value });
                    assert(elements_view(elements@) =~= elements_view(before).push((name@, value@)));
                }
                if depth > 0 {
                    depth = depth - 1;
                }
            },
            _ => {},
        }
        k = k + 1;
    }
    Ok(elements)
}

/// The text elements of an XML document: the children of the root (and
/// empty elements deeper down) with their local names and decoded text.
pub fn parse_text_elements(xml: &[u8]) -> (elements: Result<Vec<TextElement>, OfficeError>)
    ensures
        match elements {
            Ok(v) => xml_elements(xml@) == Some(elements_view(v@)),
            Err(e) => xml_elements(xml@) is None && read_error(xml@, false, e),
        },
{
    let events = read_events(xml, false)?;
    collect_text_elements(&events)
}

/// The collection of text elements from a given state.
pub open spec fn elements_run(state: Option<ElementsState>, events: Seq<EventView>) -> Option<ElementsState>
    decreases events.len(),
{
    if events.len() == 0 {
        state
    } else {
        elements_step(elements_run(state, events.drop_last()), events.last())
    }
}

/// The state the collection of text elements starts from.
pub open spec fn elements_start() -> ElementsState {
    ElementsState { depth: 0, current: None, elements: Seq::empty() }
}

/// The state inside the root, between two of its children.
pub open spec fn inside_root(elements: Seq<(Seq<char>, Seq<char>)>) -> ElementsState {
    ElementsState { depth: 1, current: None, elements }
}

pub proof fn lemma_elements_fold_run(events: Seq<EventView>, n: int)
    requires
        0 <= n <= events.len(),
    ensures
        elements_fold(events, n) == elements_run(Some(elements_start()), events.take(n)),
    decreases n,
{
    if n > 0 {
        lemma_elements_fold_run(events, n - 1);
        assert(events.take(n).drop_last() =~= events.take(n - 1));
        assert(events.take(n).last() == events[n - 1]);
    } else {
        assert(events.take(0) =~= Seq::<EventView>::empty());
    }
}

pub proof fn lemma_elements_run_append(state: Option<ElementsState>, a: Seq<EventView>, b: Seq<EventView>)
    ensures
        elements_run(state, a + b) == elements_run(elements_run(state, a), b),
    decreases b.len(),
{
    if b.len() == 0 {
        assert(a + b =~= a);
    } else {
        lemma_elements_run_append(state, a, b.drop_last());
        assert((a + b).drop_last() =~= a + b.drop_last());
        assert((a + b).last() == b.last());
    }
}

pub proof fn lemma_elements_run_one(state: Option<ElementsState>, e: EventView)
    ensures
        elements_run(state, seq![e]) == elements_step(state, e),
{
    assert(seq![e].drop_last() =~= Seq::<EventView>::empty());
    assert(elements_run(state, seq![e].drop_last()) == state);
    assert(seq![e].last() == e);
}

/// A named value, when the value is set and not empty.
pub open spec fn named_value(name: Seq<char>, value: Option<Seq<char>>) -> Seq<(Seq<char>, Seq<char>)> {
    match value {
        Some(v) => if v.len() > 0 {
            seq![(name, v)]
        } else {
            Seq::empty()
        },
        None => Seq::empty(),
    }
}

/// A plain text element inside the root adds its local name and text.
pub proof fn lemma_text_element_run(
    elements: Seq<(Seq<char>, Seq<char>)>,
    name: Seq<char>,
    attributes: Seq<char>,
    value: Seq<char>,
)
    requires
        plain_text(value),
    ensures
        elements_run(Some(inside_root(elements)), text_element(name, attributes, value)) == Some(
            inside_root(elements.push((local_name(name), value))),
        ),
{
    lemma_plain_decoded(value);
    let s0 = Some(inside_root(elements));
    let a = EventView::Start(name, attributes);
    let b = EventView::Text(escaped_text(value));
    let c = EventView::End(name);
    assert(text_element(name, attributes, value) =~= seq![a] + seq![b] + seq![c]);
    lemma_elements_run_append(s0, seq![a] + seq![b], seq![c]);
    lemma_elements_run_append(s0, seq![a], seq![b]);
    lemma_elements_run_one(s0, a);
    let s1 = elements_step(s0, a);
    lemma_elements_run_one(s1, b);
    let s2 = elements_step(s1, b);
    lemma_elements_run_one(s2, c);
    assert(Seq::<char>::empty() + value =~= value);
}

/// The state collecting an element's value after `more` is added to it.
pub open spec fn with_more(st: ElementsState, more: Seq<char>) -> ElementsState {
    let c = st.current.unwrap();
    ElementsState { current: Some((c.0, c.1 + more, c.2)), ..st }
}

/// Reading the pieces of escaped text, as the reader splits it at its
/// references, adds the text to the element being collected.
pub proof fn lemma_pieces_elements_run(st: ElementsState, v: Seq<char>)
    requires
        st.current is Some,
        references_resolve(),
    ensures
        elements_run(Some(st), text_pieces(escaped_text(v))) == Some(with_more(st, v)),
    decreases v.len(),
{
    let c0 = st.current.unwrap();
    if v.len() == 0 {
        assert(escaped_text(v) =~= Seq::<char>::empty());
        assert(text_pieces(escaped_text(v)) =~= Seq::<EventView>::empty());
        assert(c0.1 + v =~= c0.1);
        assert(with_more(st, v) == st);
    } else {
        let c = v[0];
        let r = v.drop_first();
        assert(v =~= seq![c] + r);
        lemma_escaped_cons(c, r);
        lemma_escaped_no_cr(r);
        let rest = escaped_text(r);
        lemma_pieces_cons(c, rest);
        let st1 = with_more(st, seq![c]);
        lemma_pieces_elements_run(st1, r);
        assert(c0.1 + seq![c] + r =~= c0.1 + v);
        assert(with_more(st1, r) == with_more(st, v));
        if is_markup_char(c) {
            let g = EventView::GeneralRef(reference_name(c));
            lemma_markup_char_reference(c);
            lemma_elements_run_append(Some(st), seq![g], text_pieces(rest));
            lemma_elements_run_one(Some(st), g);
        } else if rest.len() == 0 || rest[0] == '&' {
            let t = EventView::Text(seq![c]);
            lemma_run_decoded(seq![c]);
            lemma_elements_run_append(Some(st), seq![t], text_pieces(rest));
            lemma_elements_run_one(Some(st), t);
        } else {
            let i = char_index(rest, '&') as int;
            lemma_char_index(rest, '&');
            let run = rest.take(i);
            let tail = text_pieces(rest.skip(i));
            lemma_run_decoded(run);
            lemma_run_decoded(seq![c] + run);
            let t1 = EventView::Text(run);
            let t2 = EventView::Text(seq![c] + run);
            lemma_elements_run_append(Some(st1), seq![t1], tail);
            lemma_elements_run_one(Some(st1), t1);
            lemma_elements_run_append(Some(st), seq![t2], tail);
            lemma_elements_run_one(Some(st), t2);
            assert(c0.1 + seq![c] + run =~= c0.1 + (seq![c] + run));
            assert(with_more(st1, run) == with_more(st, seq![c] + run));
        }
    }
}

/// A text element inside the root, as the reader reads it, adds its local
/// name and text, whatever characters the text holds.
pub proof fn lemma_text_element_pieces_run(
    elements: Seq<(Seq<char>, Seq<char>)>,
    name: Seq<char>,
    attributes: Seq<char>,
    value: Seq<char>,
)
    requires
        references_resolve(),
    ensures
        elements_run(Some(inside_root(elements)), reader_events(text_element(name, attributes, value))) == Some(
            inside_root(elements.push((local_name(name), value))),
        ),
{
    let s0 = Some(inside_root(elements));
    let a = EventView::Start(name, attributes);
    let b = EventView::Text(escaped_text(value));
    let c = EventView::End(name);
    assert(text_element(name, attributes, value) =~= seq![a] + seq![b] + seq![c]);
    lemma_reader_events_append(seq![a] + seq![b], seq![c]);
    lemma_reader_events_append(seq![a], seq![b]);
    lemma_reader_events_one(a);
    lemma_reader_events_one(b);
    lemma_reader_events_one(c);
    let pieces = text_pieces(escaped_text(value));
    lemma_elements_run_append(s0, seq![a] + pieces, seq![c]);
    lemma_elements_run_append(s0, seq![a], pieces);
    lemma_elements_run_one(s0, a);
    let s1 = elements_step(s0, a).unwrap();
    lemma_pieces_elements_run(s1, value);
    lemma_elements_run_one(Some(with_more(s1, value)), c);
    assert(Seq::<char>::empty() + value =~= value);
}

/// An optional element inside the root, as the reader reads it, adds its
/// local name and text when it is there.
pub proof fn lemma_optional_pieces_run(
    prefix: Seq<EventView>,
    elements: Seq<(Seq<char>, Seq<char>)>,
    name: Seq<char>,
    attributes: Seq<char>,
    value: Option<Seq<char>>,
)
    requires
        elements_run(Some(elements_start()), reader_events(prefix)) == Some(inside_root(elements)),
        references_resolve(),
    ensures
        elements_run(Some(elements_start()), reader_events(prefix + optional_element(name, attributes, value))) == Some(
            inside_root(elements + named_value(local_name(name), value)),
        ),
{
    let added = optional_element(name, attributes, value);
    lemma_reader_events_append(prefix, added);
    lemma_elements_run_append(Some(elements_start()), reader_events(prefix), reader_events(added));
    match value {
        Some(v) => {
            if v.len() > 0 {
                lemma_text_element_pieces_run(elements, name, attributes, v);
                assert(elements.push((local_name(name), v)) =~= elements + seq![(local_name(name), v)]);
            } else {
                assert(reader_events(added) =~= Seq::<EventView>::empty());
                assert(elements + Seq::<(Seq<char>, Seq<char>)>::empty() =~= elements);
            }
        },
        None => {
            assert(reader_events(added) =~= Seq::<EventView>::empty());
            assert(elements + Seq::<(Seq<char>, Seq<char>)>::empty() =~= elements);
        },
    }
}

} // verus!
