//! Reading XML markup into events with the `quick_xml` tokenizer.
use crate::error::OfficeError;
use crate::xml::{markup, EventView, XmlEvent, XmlTag};
use quick_xml::events::Event;
use vstd::prelude::*;
use vstd::utf8::encode_utf8;

verus! {

/// The kind of a markup event reported by the tokenizer.
#[derive(PartialEq, Eq, Structural, Clone, Copy)]
pub enum EventKind {
    Start,
    End,
    Empty,
    Text,
    CData,
    Comment,
    Decl,
    PI,
    DocType,
    GeneralRef,
}

/// What one read from the tokenizer gives: an event (its kind and its raw
/// content), the end of the input, or a failure.
pub enum ReadStep {
    Event(EventKind, Seq<char>),
    Finished,
    Failed,
}

#[verifier::external_type_specification]
#[verifier::external_body]
#[verifier::reject_recursive_types(R)]
pub struct ExXmlReader<R>(quick_xml::Reader<R>);

#[verifier::external_type_specification]
#[verifier::external_body]
#[verifier::reject_recursive_types(T)]
pub struct ExCursor<T>(std::io::Cursor<T>);

/// The bytes a tokenizer reads.
pub uninterp spec fn reader_source(reader: quick_xml::Reader<std::io::Cursor<Vec<u8>>>) -> Seq<u8>;

/// Whether a tokenizer trims whitespace around text and drops blank text.
pub uninterp spec fn reader_trims_text(reader: quick_xml::Reader<std::io::Cursor<Vec<u8>>>) -> bool;

/// How many reads a tokenizer has answered.
pub uninterp spec fn reader_reads(reader: quick_xml::Reader<std::io::Cursor<Vec<u8>>>) -> nat;

/// What the read numbered `index` (from 0) of a fresh tokenizer over
/// `source` answers, when text trimming is as `trim_text` says.
pub uninterp spec fn tokenizer_step(source: Seq<u8>, trim_text: bool, index: nat) -> ReadStep;

/// Creates a tokenizer over a copy of `xml` (`quick_xml::Reader::from_reader`
/// on a cursor), with the default configuration: text is not trimmed and no
/// read has been made.
#[verifier::external_body]
pub(crate) fn open_tokenizer(xml: &[u8]) -> (reader: quick_xml::Reader<std::io::Cursor<Vec<u8>>>)
    ensures
        reader_source(reader) == xml@,
        !reader_trims_text(reader),
        reader_reads(reader) == 0,
{
    quick_xml::Reader::from_reader(std::io::Cursor::new(xml.to_vec()))
}

/// Turns on text trimming (`Config::trim_text(true)`) before the first read.
#[verifier::external_body]
fn trim_tokenizer_text(reader: &mut quick_xml::Reader<std::io::Cursor<Vec<u8>>>)
    requires
        reader_reads(*old(reader)) == 0,
    ensures
        reader_source(*final(reader)) == reader_source(*old(reader)),
        reader_trims_text(*final(reader)),
        reader_reads(*final(reader)) == 0,
{
    reader.config_mut().trim_text(true);
}

/// The step that a read's outcome stands for.
pub open spec fn step_of(outcome: Result<Option<(EventKind, String)>, String>) -> ReadStep {
    match outcome {
        Ok(Some((kind, content))) => ReadStep::Event(kind, content@),
        Ok(None) => ReadStep::Finished,
        Err(_) => ReadStep::Failed,
    }
}

/// Reads the next event (`Reader::read_event_into`) and reports its kind
/// with its raw content, the text that the event dereferences to. The outcome
/// is the step that the tokenizer's source, configuration and count of
/// earlier reads determine.
#[verifier::external_body]
pub(crate) fn read_raw_event(reader: &mut quick_xml::Reader<std::io::Cursor<Vec<u8>>>) -> (outcome: Result<Option<(EventKind, String)>, String>)
    ensures
        reader_source(*final(reader)) == reader_source(*old(reader)),
        reader_trims_text(*final(reader)) == reader_trims_text(*old(reader)),
        reader_reads(*final(reader)) == reader_reads(*old(reader)) + 1,
        step_of(outcome) == tokenizer_step(reader_source(*old(reader)), reader_trims_text(*old(reader)), reader_reads(*old(reader))),
{
    let mut buffer = Vec::new();
    let event = reader.read_event_into(&mut buffer).map_err(|error| error.to_string())?;
    let kind = match &event {
        Event::Start(_) => EventKind::Start, Event::End(_) => EventKind::End,
        Event::Empty(_) => EventKind::Empty, Event::Text(_) => EventKind::Text,
        Event::CData(_) => EventKind::CData, Event::Comment(_) => EventKind::Comment,
        Event::Decl(_) => EventKind::Decl, Event::PI(_) => EventKind::PI,
        Event::DocType(_) => EventKind::DocType, Event::GeneralRef(_) => EventKind::GeneralRef,
        Event::Eof => return Ok(None),
    };
    Ok(Some((kind, event.to_string())))
}

/// XML whitespace, which ends the name of a tag.
pub open spec fn is_xml_space(c: char) -> bool {
    c == ' ' || c == '\r' || c == '\n' || c == '\t'
}

/// The length of the name at the start of a tag's content: everything up to
/// the first XML whitespace.
pub open spec fn tag_name_len(content: Seq<char>) -> nat
    decreases content.len(),
{
    if content.len() == 0 || is_xml_space(content[0]) {
        0
    } else {
        1 + tag_name_len(content.drop_first())
    }
}

pub proof fn lemma_tag_name_len(content: Seq<char>)
    ensures
        tag_name_len(content) <= content.len(),
        forall|i: int| 0 <= i < tag_name_len(content) ==> !is_xml_space(#[trigger] content[i]),
        tag_name_len(content) < content.len() ==> is_xml_space(content[tag_name_len(content) as int]),
    decreases content.len(),
{
    if content.len() > 0 && !is_xml_space(content[0]) {
        lemma_tag_name_len(content.drop_first());
        assert forall|i: int| 0 <= i < tag_name_len(content) implies !is_xml_space(#[trigger] content[i]) by {
            if i > 0 {
                assert(content[i] == content.drop_first()[i - 1]);
            }
        }
    }
}

/// The event that a raw event stands for.
pub open spec fn raw_event_view(kind: EventKind, content: Seq<char>) -> EventView {
    let n = tag_name_len(content) as int;
    match kind {
        EventKind::Start => EventView::Start(content.take(n), content.skip(n)),
        EventKind::End => EventView::End(content),
        EventKind::Empty => EventView::Empty(content.take(n), content.skip(n)),
        EventKind::Text => EventView::Text(content),
        EventKind::CData => EventView::CData(content),
        EventKind::Comment => EventView::Comment(content),
        EventKind::Decl => EventView::Decl(content),
        EventKind::PI => EventView::PI(content),
        EventKind::DocType => EventView::DocType(content),
        EventKind::GeneralRef => EventView::GeneralRef(content),
    }
}

/// Splits a tag's content into its name and its attribute text.
fn split_tag(content: &str) -> (tag: XmlTag)
    ensures
        tag.name@ == content@.take(tag_name_len(content@) as int),
        tag.attributes@ == content@.skip(tag_name_len(content@) as int),
{
    let chars = crate::text::chars_of(content);
    proof {
        lemma_tag_name_len(content@);
    }
    let mut n: usize = 0;
    while n < chars.len() && !(chars[n] == ' ' || chars[n] == '\r' || chars[n] == '\n' || chars[n] == '\t')
        invariant
            chars@ == content@,
            n <= tag_name_len(content@),
        decreases chars.len() - n,
    {
        proof {
            lemma_tag_name_len(content@);
        }
        n = n + 1;
    }
    proof {
        lemma_tag_name_len(content@);
    }
    let name = crate::text::string_of_range(chars.as_slice(), 0, n);
    let attributes = crate::text::string_of_range(chars.as_slice(), n, chars.len());
    XmlTag { name, attributes }
}

/// Builds the event that a raw event stands for.
pub(crate) fn event_from_raw(kind: EventKind, content: String) -> (event: XmlEvent)
    ensures
        event@ == raw_event_view(kind, content@),
{
    match kind {
        EventKind::Start => XmlEvent::Start(split_tag(content.as_str())),
        EventKind::End => XmlEvent::End(content),
        EventKind::Empty => XmlEvent::Empty(split_tag(content.as_str())),
        EventKind::Text => XmlEvent::Text(content),
        EventKind::CData => XmlEvent::CData(content),
        EventKind::Comment => XmlEvent::Comment(content),
        EventKind::Decl => XmlEvent::Decl(content),
        EventKind::PI => XmlEvent::PI(content),
        EventKind::DocType => XmlEvent::DocType(content),
        EventKind::GeneralRef => XmlEvent::GeneralRef(content),
    }
}

/// The events that reads from `index` on give, reading at most `fuel` times:
/// `None` when a read fails or the input does not end within `fuel` reads.
pub open spec fn events_from(source: Seq<u8>, trim_text: bool, index: nat, fuel: nat) -> Option<Seq<EventView>>
    decreases fuel,
{
    if fuel == 0 {
        None
    } else {
        match tokenizer_step(source, trim_text, index) {
            ReadStep::Finished => Some(Seq::empty()),
            ReadStep::Failed => None,
            ReadStep::Event(kind, content) => match events_from(source, trim_text, index + 1, (fuel - 1) as nat) {
                Some(rest) => Some(seq![raw_event_view(kind, content)] + rest),
                None => None,
            },
        }
    }
}

/// The events of an XML document: every read up to the end of the input.
/// Each event takes up at least one byte of the input, so the input ends
/// within one read more than its length.
pub open spec fn parsed_events(source: Seq<u8>, trim_text: bool) -> Option<Seq<EventView>> {
    events_from(source, trim_text, 0, source.len() + 1)
}

/// Whether the XML reader, trimming text or not, reads the markup of events
/// back as those events.
pub open spec fn markup_reads_back(events: Seq<EventView>, trim_text: bool) -> bool {
    parsed_events(encode_utf8(markup(events)), trim_text) == Some(events)
}

/// Whether the XML reader, not trimming text, reads the markup of events
/// back as those events with each text split at its references.
pub open spec fn markup_reads_back_in_pieces(events: Seq<EventView>) -> bool {
    parsed_events(encode_utf8(markup(events)), false) == Some(crate::reader_pieces::reader_events(events))
}

/// Whether the XML reader, trimming text, reads the markup of events back
/// as those events with each text split at its references, each text piece
/// trimmed and the pieces left empty dropped.
pub open spec fn markup_reads_back_trimmed_in_pieces(events: Seq<EventView>) -> bool {
    parsed_events(encode_utf8(markup(events)), true) == Some(crate::reader_pieces::trimmed_reader_events(events))
}

/// The error of reading an XML document that fails: the reader's error when
/// the markup cannot be read, else an error of the document's content.
pub open spec fn read_error(xml: Seq<u8>, trim_text: bool, e: crate::error::OfficeError) -> bool {
    if parsed_events(xml, trim_text) is None {
        e is Xml
    } else {
        e is InvalidDocument
    }
}

/// Reads all events of an XML document.
pub fn read_events(xml: &[u8], trim_text: bool) -> (events: Result<Vec<XmlEvent>, OfficeError>)
    ensures
        events matches Ok(v) ==> parsed_events(xml@, trim_text) == Some(crate::xml::event_views(v@)),
        events matches Err(e) ==> parsed_events(xml@, trim_text) is None && e is Xml,
{
    let mut reader = open_tokenizer(xml);
    if trim_text {
        trim_tokenizer_text(&mut reader);
    }
    let mut events: Vec<XmlEvent> = Vec::new();
    let ghost mut reads: nat = 0;
    let mut remaining: usize = xml.len();
    loop
        invariant
            reader_source(reader) == xml@,
            reader_trims_text(reader) == trim_text,
            reader_reads(reader) == reads,
            reads + remaining == xml.len(),
            parsed_events(xml@, trim_text) == match events_from(xml@, trim_text, reads, (remaining + 1) as nat) {
                Some(rest) => Some(crate::xml::event_views(events@) + rest),
                None => None::<Seq<EventView>>,
            },
        decreases remaining,
    {
        let ghost before = events@;
        let outcome = read_raw_event(&mut reader);
        proof {
            reads = reads + 1;
        }
        match outcome {
            Ok(Some((kind, content))) => {
                let event = event_from_raw(kind, content);
                events.push(event);
                proof {
                    assert(crate::xml::event_views(events@) =~= crate::xml::event_views(before) + seq![event@]);
                    match events_from(xml@, trim_text, reads, remaining as nat) {
                        Some(rest) => {
                            assert(crate::xml::event_views(before) + (seq![event@] + rest) =~= crate::xml::event_views(events@) + rest);
                        },
                        None => {},
                    }
                }
                if remaining == 0 {
                    return Err(OfficeError::Xml(String::from_str("XML document does not end")));
                }
                remaining = remaining - 1;
            },
            Ok(None) => {
                assert(crate::xml::event_views(events@) + Seq::<EventView>::empty() =~= crate::xml::event_views(events@));
                return Ok(events);
            },
            Err(message) => {
                return Err(OfficeError::Xml(message));
            },
        }
    }
}

} // verus!
