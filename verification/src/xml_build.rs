//! Building the events of generated XML parts.
use crate::xml::{escape_text, escaped_text, event_views, markup, write_events, EventView, XmlEvent, XmlTag};
use vstd::prelude::*;
use vstd::string::StrSliceExecFns;
use vstd::utf8::encode_utf8;

verus! {

/// The events of an element holding escaped text: `<name attributes>text</name>`.
pub open spec fn text_element(name: Seq<char>, attributes: Seq<char>, value: Seq<char>) -> Seq<EventView> {
    seq![EventView::Start(name, attributes), EventView::Text(escaped_text(value)), EventView::End(name)]
}

/// The events of an optional element: present when the value is set and
/// not empty.
pub open spec fn optional_element(name: Seq<char>, attributes: Seq<char>, value: Option<Seq<char>>) -> Seq<EventView> {
    match value {
        Some(v) => if v.len() > 0 {
            text_element(name, attributes, v)
        } else {
            Seq::empty()
        },
        None => Seq::empty(),
    }
}

/// The XML declaration of generated parts.
pub open spec fn standalone_declaration() -> EventView {
    EventView::Decl("xml version=\"1.0\" encoding=\"UTF-8\" standalone=\"yes\""@)
}

/// Appends the events of a text element.
pub fn push_text_element(events: &mut Vec<XmlEvent>, name: &str, attributes: &str, value: &str)
    ensures
        event_views(final(events)@) == event_views(old(events)@) + text_element(name@, attributes@, value@),
{
    let ghost before = events@;
    events.push(XmlEvent::Start(XmlTag { name: name.to_owned(), attributes: attributes.to_owned() }));
    events.push(XmlEvent::Text(escape_text(value)));
    events.push(XmlEvent::End(name.to_owned()));
    assert(event_views(events@) =~= event_views(before) + text_element(name@, attributes@, value@));
}

/// Appends the events of an optional element.
pub fn push_optional_element(events: &mut Vec<XmlEvent>, name: &str, attributes: &str, value: &Option<String>)
    ensures
        event_views(final(events)@) == event_views(old(events)@) + optional_element(
            name@,
            attributes@,
            crate::metadata::opt_text(*value),
        ),
{
    match value {
        Some(v) => {
            if !v.as_str().is_empty() {
                push_text_element(events, name, attributes, v.as_str());
            } else {
                assert(event_views(events@) =~= event_views(events@) + Seq::<EventView>::empty());
            }
        },
        None => {
            assert(event_views(events@) =~= event_views(events@) + Seq::<EventView>::empty());
        },
    }
}

/// Appends an event.
pub fn push_event(events: &mut Vec<XmlEvent>, event: XmlEvent)
    ensures
        event_views(final(events)@) == event_views(old(events)@).push(event@),
{
    let ghost before = events@;
    events.push(event);
    assert(event_views(events@) =~= event_views(before).push(event@));
}

/// The declaration event of generated parts.
pub fn declaration() -> (e: XmlEvent)
    ensures
        e@ == standalone_declaration(),
{
    XmlEvent::Decl(String::from_str("xml version=\"1.0\" encoding=\"UTF-8\" standalone=\"yes\""))
}

/// The UTF-8 bytes of the markup of events.
pub fn events_bytes(events: &Vec<XmlEvent>) -> (bytes: Vec<u8>)
    ensures
        bytes@ == encode_utf8(markup(event_views(events@))),
{
    let text = write_events(events.as_slice());
    text.as_str().as_bytes_vec()
}

} // verus!
