//! Recording a document's source in its custom properties, rewriting the
//! custom properties part event by event and registering it with the
//! package.
use crate::attributes::{raw_attribute, raw_lookup, tag_attributes};
use crate::closing_tag::utf8_text;
use crate::custom_props::{custom_root_attributes, property_attribute_text, property_events};
use crate::error::OfficeError;
use crate::numbers::{all_digits, digits_value, is_digit};
use crate::registration::{override_element, relationship_element};
use crate::text::{chars_of, find_from, first_occurrence, lemma_first_occurrence, occurs_at, string_of_range};
use crate::word_text::{copy_event, is_named};
use crate::xml::{event_views, markup, EventView, XmlEvent, XmlTag};
use crate::xml_build::{events_bytes, push_event, push_text_element};
use crate::xml_reader::{
    event_from_raw, events_from, open_tokenizer, parsed_events, raw_event_view, read_error, read_events, read_raw_event,
    reader_reads, reader_source, reader_trims_text, tokenizer_step, ReadStep,
};
use crate::xml_text::{local_name, local_name_of};
use vstd::prelude::*;
use vstd::slice::slice_to_vec;
use vstd::string::{StrSliceExecFns, StringExecFns};
use vstd::utf8::{decode_utf8, encode_utf8, valid_utf8};

verus! {

/// The name of the custom property that records the source.
pub const SOURCE_PROPERTY: &'static str = "Source";

/// The sign and digits of a signed number: whether it is negative, and the
/// text after one leading `+` or `-`.
pub open spec fn signed_digits(s: Seq<char>) -> (bool, Seq<char>) {
    if s.len() > 0 && s[0] == '-' {
        (true, s.drop_first())
    } else if s.len() > 0 && s[0] == '+' {
        (false, s.drop_first())
    } else {
        (false, s)
    }
}

/// The `i32` that a text denotes, as `str::parse::<i32>` reads it.
pub open spec fn parsed_i32(s: Seq<char>) -> Option<i32> {
    let (negative, d) = signed_digits(s);
    if d.len() > 0 && all_digits(d) {
        let v = if negative { -digits_value(d) } else { digits_value(d) };
        if i32::MIN <= v <= i32::MAX {
            Some(v as i32)
        } else {
            None
        }
    } else {
        None
    }
}

proof fn lemma_digits_prefix_bound(s: Seq<char>, i: int)
    requires
        all_digits(s),
        0 <= i <= s.len(),
    ensures
        0 <= digits_value(s.take(i)) <= digits_value(s),
    decreases s.len(),
{
    if i < s.len() {
        assert(s.drop_last().take(i) =~= s.take(i));
        assert(all_digits(s.drop_last()));
        lemma_digits_prefix_bound(s.drop_last(), i);
        lemma_digits_prefix_bound(s.drop_last(), s.len() - 1);
        assert(s.drop_last().take(s.len() - 1) =~= s.drop_last());
        assert(is_digit(s.last()));
    } else {
        assert(s.take(i) =~= s);
        if s.len() > 0 {
            assert(all_digits(s.drop_last()));
            lemma_digits_prefix_bound(s.drop_last(), s.len() - 1);
            assert(s.drop_last().take(s.len() - 1) =~= s.drop_last());
            assert(is_digit(s.last()));
        }
    }
}

/// Reads an `i32` written in decimal, as `str::parse::<i32>` does.
pub fn parse_i32(text: &str) -> (n: Option<i32>)
    ensures
        n == parsed_i32(text@),
{
    let chars = chars_of(text);
    let mut start: usize = 0;
    let mut negative = false;
    if chars.len() > 0 && (chars[0] == '-' || chars[0] == '+') {
        negative = chars[0] == '-';
        start = 1;
    }
    let ghost d = signed_digits(text@).1;
    assert(d =~= chars@.skip(start as int));
    assert(negative == signed_digits(text@).0);
    if start >= chars.len() {
        return None;
    }
    let mut value: u64 = 0;
    let mut i: usize = start;
    while i < chars.len()
        invariant
            chars@ == text@,
            d == chars@.skip(start as int),
            d == signed_digits(text@).1,
            negative == signed_digits(text@).0,
            start <= i <= chars.len(),
            start < chars.len(),
            all_digits(d.take(i - start)),
            value == digits_value(d.take(i - start)),
            value <= 2147483648,
        decreases chars.len() - i,
    {
        let c = chars[i];
        if !('0' <= c && c <= '9') {
            assert(d[i - start] == c);
            assert(!is_digit(d[i - start]));
            return None;
        }
        let digit: u64 = (c as u32 - '0' as u32) as u64;
        let ghost k = i - start;
        assert(d.take(k + 1).drop_last() =~= d.take(k));
        assert(d.take(k + 1).last() == c);
        assert(digits_value(d.take(k + 1)) == value * 10 + digit);
        assert(all_digits(d.take(k + 1))) by {
            assert forall|j: int| 0 <= j < k + 1 implies is_digit(#[trigger] d.take(k + 1)[j]) by {
                if j < k {
                    assert(d.take(k + 1)[j] == d.take(k)[j]);
                }
            }
        }
        if value > 214748364 || (value == 214748364 && digit > 8) {
            assert(value * 10 + digit > 2147483648) by (nonlinear_arith)
                requires
                    value > 214748364 || (value == 214748364 && digit > 8),
            ;
            proof {
                if all_digits(d) {
                    lemma_digits_prefix_bound(d, k + 1);
                }
            }
            return None;
        }
        assert(value * 10 + digit <= 2147483648) by (nonlinear_arith)
            requires
                value <= 214748364,
                value < 214748364 || digit <= 8,
                digit < 10,
        ;
        value = value * 10 + digit;
        i = i + 1;
    }
    assert(d.take(i - start) =~= d);
    if negative {
        Some((0i64 - value as i64) as i32)
    } else if value <= 2147483647 {
        Some(value as i32)
    } else {
        None
    }
}

/// The property id that a `property` tag declares: 1 when it has none;
/// `None` when an attribute is malformed or the id is not an `i32`.
pub open spec fn declared_pid(name: Seq<char>, attributes: Seq<char>) -> Option<int> {
    match raw_lookup(tag_attributes(name, attributes), "pid"@) {
        None => None,
        Some(None) => Some(1),
        Some(Some(raw)) => match parsed_i32(raw) {
            Some(v) => Some(v as int),
            None => None,
        },
    }
}

/// The property id of a `property` tag, as [`declared_pid`] gives it.
pub fn property_pid(name: &str, attributes: &str) -> (pid: Result<i32, OfficeError>)
    ensures
        match declared_pid(name@, attributes@) {
            Some(v) => pid matches Ok(p) && p == v,
            None => pid matches Err(e) && e is InvalidDocument,
        },
{
    match raw_attribute(name, attributes, "pid") {
        Ok(Some(raw)) => match parse_i32(raw.as_str()) {
            Some(v) => Ok(v),
            None => Err(OfficeError::InvalidDocument(String::from_str("custom property has an invalid pid"))),
        },
        Ok(None) => Ok(1),
        Err(_) => Err(OfficeError::InvalidDocument(String::from_str("custom property has a malformed attribute"))),
    }
}

/// The name of a `property` tag as written, if it has one.
pub fn property_name(name: &str, attributes: &str) -> (found: Result<Option<String>, OfficeError>)
    ensures
        match raw_lookup(tag_attributes(name@, attributes@), "name"@) {
            Some(Some(v)) => found matches Ok(Some(n)) && n@ == v,
            Some(None) => found matches Ok(None),
            None => found matches Err(e) && e is InvalidDocument,
        },
{
    match raw_attribute(name, attributes, "name") {
        Ok(found) => Ok(found),
        Err(_) => Err(OfficeError::InvalidDocument(String::from_str("custom property has a malformed attribute"))),
    }
}

/// Whether a `property` tag is the source property.
pub open spec fn names_source(name: Seq<char>, attributes: Seq<char>) -> bool {
    raw_lookup(tag_attributes(name, attributes), "name"@) == Some(Some(SOURCE_PROPERTY@))
}

/// The events of the source property with its property id.
pub open spec fn source_property_events(pid: nat, source: Seq<char>) -> Seq<EventView> {
    property_events(pid, SOURCE_PROPERTY@, source)
}

/// The progress of rewriting custom properties: the depth inside a source
/// property being dropped, the highest property id seen, and the events
/// written.
pub struct SourceScan {
    pub skip: nat,
    pub highest: int,
    pub out: Seq<EventView>,
}

/// One event of rewriting custom properties to record a source. A source
/// property is dropped; the end of `Properties` is preceded by a new source
/// property whose id follows the highest seen. `None` once a property's id
/// or name cannot be read.
pub open spec fn source_step(state: Option<SourceScan>, event: EventView, source: Seq<char>) -> Option<SourceScan> {
    match state {
        None => None,
        Some(st) => match event {
            EventView::Start(name, attributes) => if local_name(name) == "property"@ {
                match (declared_pid(name, attributes), raw_lookup(tag_attributes(name, attributes), "name"@)) {
                    (Some(pid), Some(_)) => {
                        let highest = if pid > st.highest { pid } else { st.highest };
                        if names_source(name, attributes) {
                            Some(SourceScan { skip: 1, highest, ..st })
                        } else {
                            Some(SourceScan { highest, out: st.out.push(event), ..st })
                        }
                    },
                    _ => None,
                }
            } else if st.skip > 0 {
                Some(SourceScan { skip: st.skip + 1, ..st })
            } else {
                Some(SourceScan { out: st.out.push(event), ..st })
            },
            EventView::Empty(name, attributes) => if local_name(name) == "property"@ {
                match (declared_pid(name, attributes), raw_lookup(tag_attributes(name, attributes), "name"@)) {
                    (Some(pid), Some(_)) => {
                        let highest = if pid > st.highest { pid } else { st.highest };
                        if names_source(name, attributes) {
                            Some(SourceScan { highest, ..st })
                        } else {
                            Some(SourceScan { highest, out: st.out.push(event), ..st })
                        }
                    },
                    _ => None,
                }
            } else if st.skip == 0 {
                Some(SourceScan { out: st.out.push(event), ..st })
            } else {
                Some(st)
            },
            EventView::End(name) => if local_name(name) == "Properties"@ {
                Some(
                    SourceScan {
                        out: (st.out + source_property_events((st.highest + 1) as nat, source)).push(event),
                        ..st
                    },
                )
            } else if st.skip > 0 {
                Some(SourceScan { skip: (st.skip - 1) as nat, ..st })
            } else {
                Some(SourceScan { out: st.out.push(event), ..st })
            },
            _ => if st.skip == 0 {
                Some(SourceScan { out: st.out.push(event), ..st })
            } else {
                Some(st)
            },
        },
    }
}

/// The rewrite after the first `n` events.
pub open spec fn source_fold(events: Seq<EventView>, n: int, source: Seq<char>) -> Option<SourceScan>
    decreases n,
{
    if n <= 0 || n > events.len() {
        Some(source_start())
    } else {
        source_step(source_fold(events, n - 1, source), events[n - 1], source)
    }
}

/// The scan that rewriting custom properties starts from.
pub open spec fn source_start() -> SourceScan {
    SourceScan { skip: 0, highest: 1, out: Seq::empty() }
}

/// Whether rewriting custom properties over these events, from a state,
/// meets the end of `Properties` when the highest property id seen is the
/// largest `i32`, so that the id after it does not fit one; the rewrite
/// stops there, or where it fails.
pub open spec fn pid_overflow_in(events: Seq<EventView>, st: SourceScan, source: Seq<char>) -> bool
    decreases events.len(),
{
    if events.len() == 0 {
        false
    } else if (events[0] matches EventView::End(name) && local_name(name) == "Properties"@) && st.highest
        >= i32::MAX {
        true
    } else {
        match source_step(Some(st), events[0], source) {
            Some(next) => pid_overflow_in(events.drop_first(), next, source),
            None => false,
        }
    }
}

/// The same over the reads of the tokenizer from the one numbered `index`
/// on, at most `fuel` of them: the rewrite reads events one at a time, so
/// it meets such an end before any later read fails.
pub open spec fn pid_overflow_from(xml: Seq<u8>, index: nat, fuel: nat, st: SourceScan, source: Seq<char>) -> bool
    decreases fuel,
{
    if fuel == 0 {
        false
    } else {
        match tokenizer_step(xml, false, index) {
            ReadStep::Event(kind, content) => {
                let e = raw_event_view(kind, content);
                if (e matches EventView::End(name) && local_name(name) == "Properties"@) && st.highest >= i32::MAX {
                    true
                } else {
                    match source_step(Some(st), e, source) {
                        Some(next) => pid_overflow_from(xml, index + 1, (fuel - 1) as nat, next, source),
                        None => false,
                    }
                }
            },
            _ => false,
        }
    }
}

/// Whether recording a source in existing custom properties meets a
/// property id after the largest `i32`, which does not fit one.
pub open spec fn pid_overflows(existing: Option<Seq<u8>>, source: Seq<char>) -> bool {
    match existing {
        Some(xml) => pid_overflow_from(xml, 0, (xml.len() + 1) as nat, source_start(), source),
        None => false,
    }
}

proof fn lemma_pid_overflow_events(
    xml: Seq<u8>,
    index: nat,
    fuel: nat,
    st: SourceScan,
    rest: Seq<EventView>,
    source: Seq<char>,
)
    requires
        events_from(xml, false, index, fuel) == Some(rest),
    ensures
        pid_overflow_from(xml, index, fuel, st, source) == pid_overflow_in(rest, st, source),
    decreases fuel,
{
    match tokenizer_step(xml, false, index) {
        ReadStep::Event(kind, content) => {
            let e = raw_event_view(kind, content);
            let tail = events_from(xml, false, index + 1, (fuel - 1) as nat).unwrap();
            assert(rest == seq![e] + tail);
            assert(rest[0] == e);
            assert(rest.drop_first() =~= tail);
            match source_step(Some(st), e, source) {
                Some(next) => lemma_pid_overflow_events(xml, index + 1, (fuel - 1) as nat, next, tail, source),
                None => {},
            }
        },
        _ => {},
    }
}

/// The events of a new custom properties part holding only the source.
pub open spec fn new_source_events(source: Seq<char>) -> Seq<EventView> {
    seq![EventView::Start("Properties"@, custom_root_attributes())] + source_property_events(2, source) + seq![
        EventView::End("Properties"@),
    ]
}

/// The custom properties part after recording a source: a new part when
/// there was none; `None` when the existing part cannot be rewritten.
pub open spec fn updated_custom_properties(existing: Option<Seq<u8>>, source: Seq<char>) -> Option<Seq<u8>> {
    match existing {
        None => Some(encode_utf8(markup(new_source_events(source)))),
        Some(xml) => match parsed_events(xml, false) {
            Some(events) => match source_fold(events, events.len() as int, source) {
                Some(st) => Some(encode_utf8(markup(st.out))),
                None => None,
            },
            None => None,
        },
    }
}

fn push_source_property(events: &mut Vec<XmlEvent>, pid: u128, source: &str)
    ensures
        event_views(final(events)@) == event_views(old(events)@) + source_property_events(pid as nat, source@),
{
    let ghost base = event_views(events@);
    let attributes = property_attribute_text(pid, SOURCE_PROPERTY);
    push_event(events, XmlEvent::Start(XmlTag { name: String::from_str("property"), attributes }));
    push_text_element(events, "vt:lpwstr", "", source);
    push_event(events, XmlEvent::End(String::from_str("property")));
    proof {
        reveal_strlit("");
        assert(""@ =~= Seq::<char>::empty());
        assert(event_views(events@) =~= base + source_property_events(pid as nat, source@));
    }
}

/// A new custom properties part holding only the source property.
pub fn new_custom_properties(source: &str) -> (xml: Vec<u8>)
    ensures
        xml@ == encode_utf8(markup(new_source_events(source@))),
{
    let mut events: Vec<XmlEvent> = Vec::new();
    push_event(
        &mut events,
        XmlEvent::Start(
            XmlTag {
                name: String::from_str("Properties"),
                attributes: String::from_str(
                    " xmlns=\"http://schemas.openxmlformats.org/officeDocument/2006/custom-properties\" xmlns:vt=\"http://schemas.openxmlformats.org/officeDocument/2006/docPropsVTypes\"",
                ),
            },
        ),
    );
    write_source_property(&mut events, 2, source);
    push_event(&mut events, XmlEvent::End(String::from_str("Properties")));
    assert(event_views(events@) =~= new_source_events(source@));
    events_bytes(&events)
}

/// Appends the source property with its property id: one more than the
/// highest id met, which starts at 1, so at least 2.
fn write_source_property(events: &mut Vec<XmlEvent>, pid: i64, source: &str)
    requires
        pid >= 2,
    ensures
        event_views(final(events)@) == event_views(old(events)@) + source_property_events(pid as nat, source@),
{
    push_source_property(events, pid as u128, source);
}

proof fn lemma_source_failed(events: Seq<EventView>, n: int, m: int, source: Seq<char>)
    requires
        0 < n <= m <= events.len(),
        source_fold(events, n, source) is None,
    ensures
        source_fold(events, m, source) is None,
    decreases m - n,
{
    if n < m {
        lemma_source_failed(events, n, m - 1, source);
    }
}

/// Records a source in custom properties: the existing source property is
/// replaced, every other property kept; a new part when there was none.
pub fn update_custom_properties(existing: Option<&[u8]>, source: &str) -> (updated: Result<Vec<u8>, OfficeError>)
    requires
        !pid_overflows(
            match existing {
                Some(x) => Some(x@),
                None => None,
            },
            source@,
        ),
    ensures
        match updated_custom_properties(
            match existing {
                Some(x) => Some(x@),
                None => None,
            },
            source@,
        ) {
            Some(xml) => updated matches Ok(u) && u@ == xml,
            None => updated matches Err(e) && (existing matches Some(x) && read_error(x@, false, e)),
        },
{
    let xml = match existing {
        Some(x) => x,
        None => return Ok(new_custom_properties(source)),
    };
    let events = read_events(xml, false)?;
    let ghost ev = event_views(events@);
    proof {
        lemma_pid_overflow_events(xml@, 0, (xml@.len() + 1) as nat, source_start(), ev, source@);
        assert(ev.skip(0) =~= ev);
    }
    let mut skip: usize = 0;
    let mut highest: i64 = 1;
    let mut out: Vec<XmlEvent> = Vec::new();
    let mut k: usize = 0;
    assert(event_views(out@) =~= Seq::<EventView>::empty());
    while k < events.len()
        invariant
            k <= events.len(),
            ev == event_views(events@),
            parsed_events(xml@, false) == Some(ev),
            existing matches Some(x) && x@ == xml@,
            skip <= k,
            i32::MIN <= highest <= i32::MAX,
            1 <= highest,
            source_fold(ev, k as int, source@) == Some(
                SourceScan { skip: skip as nat, highest: highest as int, out: event_views(out@) },
            ),
            !pid_overflow_in(
                ev.skip(k as int),
                SourceScan { skip: skip as nat, highest: highest as int, out: event_views(out@) },
                source@,
            ),
        decreases events.len() - k,
    {
        let event = copy_event(&events[k]);
        assert(ev[k as int] == event@);
        proof {
            let rest = ev.skip(k as int);
            assert(rest[0] == ev[k as int]);
            assert(rest.drop_first() =~= ev.skip(k + 1));
        }
        match &event {
            XmlEvent::Start(tag) => {
                let local = local_name_of(tag.name.as_str());
                if is_named(local.as_str(), "property") {
                    let pid = match property_pid(tag.name.as_str(), tag.attributes.as_str()) {
                        Ok(pid) => pid,
                        Err(e) => {
                            proof {
                                lemma_source_failed(ev, k + 1, ev.len() as int, source@);
                            }
                            return Err(e);
                        },
                    };
                    let name = match property_name(tag.name.as_str(), tag.attributes.as_str()) {
                        Ok(name) => name,
                        Err(e) => {
                            proof {
                                lemma_source_failed(ev, k + 1, ev.len() as int, source@);
                            }
                            return Err(e);
                        },
                    };
                    if pid as i64 > highest {
                        highest = pid as i64;
                    }
                    let is_source = match &name {
                        Some(n) => is_named(n.as_str(), SOURCE_PROPERTY),
                        None => false,
                    };
                    if is_source {
                        skip = 1;
                    } else {
                        push_event(&mut out, event);
                    }
                } else if skip > 0 {
                    skip = skip + 1;
                } else {
                    push_event(&mut out, event);
                }
            },
            XmlEvent::Empty(tag) => {
                let local = local_name_of(tag.name.as_str());
                if is_named(local.as_str(), "property") {
                    let pid = match property_pid(tag.name.as_str(), tag.attributes.as_str()) {
                        Ok(pid) => pid,
                        Err(e) => {
                            proof {
                                lemma_source_failed(ev, k + 1, ev.len() as int, source@);
                            }
                            return Err(e);
                        },
                    };
                    let name = match property_name(tag.name.as_str(), tag.attributes.as_str()) {
                        Ok(name) => name,
                        Err(e) => {
                            proof {
                                lemma_source_failed(ev, k + 1, ev.len() as int, source@);
                            }
                            return Err(e);
                        },
                    };
                    if pid as i64 > highest {
                        highest = pid as i64;
                    }
                    let is_source = match &name {
                        Some(n) => is_named(n.as_str(), SOURCE_PROPERTY),
                        None => false,
                    };
                    if !is_source {
                        push_event(&mut out, event);
                    }
                } else if skip == 0 {
                    push_event(&mut out, event);
                }
            },
            XmlEvent::End(name) => {
                let local = local_name_of(name.as_str());
                if is_named(local.as_str(), "Properties") {
                    write_source_property(&mut out, highest + 1, source);
                    push_event(&mut out, event);
                } else if skip > 0 {
                    skip = skip - 1;
                } else {
                    push_event(&mut out, event);
                }
            },
            _ => {
                if skip == 0 {
                    push_event(&mut out, event);
                }
            },
        }
        k = k + 1;
    }
    Ok(events_bytes(&out))
}

/// Whether recording a source in existing custom properties would meet a
/// property id after the largest `i32`: the events are read one at a time
/// as the rewrite reads them, up to that point or to where the rewrite
/// fails.
pub fn source_pid_overflows(existing: Option<&[u8]>, source: &str) -> (overflows: bool)
    ensures
        overflows == pid_overflows(
            match existing {
                Some(x) => Some(x@),
                None => None,
            },
            source@,
        ),
{
    let xml = match existing {
        Some(x) => x,
        None => return false,
    };
    let mut reader = open_tokenizer(xml);
    let ghost mut reads: nat = 0;
    let mut remaining: usize = xml.len();
    let mut skip: usize = 0;
    let mut highest: i64 = 1;
    let ghost mut out: Seq<EventView> = Seq::empty();
    loop
        invariant
            reader_source(reader) == xml@,
            !reader_trims_text(reader),
            reader_reads(reader) == reads,
            reads + remaining == xml.len(),
            existing matches Some(x) && x@ == xml@,
            i32::MIN <= highest <= i32::MAX,
            skip <= reads,
            pid_overflows(Some(xml@), source@) == pid_overflow_from(
                xml@,
                reads,
                (remaining + 1) as nat,
                SourceScan { skip: skip as nat, highest: highest as int, out },
                source@,
            ),
        decreases remaining,
    {
        let ghost st = SourceScan { skip: skip as nat, highest: highest as int, out };
        let outcome = read_raw_event(&mut reader);
        proof {
            reads = reads + 1;
        }
        let event = match outcome {
            Ok(Some((kind, content))) => event_from_raw(kind, content),
            _ => return false,
        };
        let ghost next = source_step(Some(st), event@, source@);
        match &event {
            XmlEvent::Start(tag) => {
                let local = local_name_of(tag.name.as_str());
                if is_named(local.as_str(), "property") {
                    let pid = match property_pid(tag.name.as_str(), tag.attributes.as_str()) {
                        Ok(pid) => pid,
                        Err(_) => return false,
                    };
                    let name = match property_name(tag.name.as_str(), tag.attributes.as_str()) {
                        Ok(name) => name,
                        Err(_) => return false,
                    };
                    if pid as i64 > highest {
                        highest = pid as i64;
                    }
                    let is_source = match &name {
                        Some(n) => is_named(n.as_str(), SOURCE_PROPERTY),
                        None => false,
                    };
                    if is_source {
                        skip = 1;
                    }
                } else if skip > 0 {
                    skip = if skip < usize::MAX {
                        skip + 1
                    } else {
                        skip
                    };
                }
            },
            XmlEvent::Empty(tag) => {
                let local = local_name_of(tag.name.as_str());
                if is_named(local.as_str(), "property") {
                    let pid = match property_pid(tag.name.as_str(), tag.attributes.as_str()) {
                        Ok(pid) => pid,
                        Err(_) => return false,
                    };
                    match property_name(tag.name.as_str(), tag.attributes.as_str()) {
                        Ok(_) => {},
                        Err(_) => return false,
                    }
                    if pid as i64 > highest {
                        highest = pid as i64;
                    }
                }
            },
            XmlEvent::End(name) => {
                let local = local_name_of(name.as_str());
                if is_named(local.as_str(), "Properties") {
                    if highest >= 2147483647 {
                        return true;
                    }
                } else if skip > 0 {
                    skip = skip - 1;
                }
            },
            _ => {},
        }
        proof {
            out = next.unwrap().out;
        }
        if remaining == 0 {
            proof {
                reveal_with_fuel(pid_overflow_from, 2);
            }
            return false;
        }
        remaining = remaining - 1;
    }
}

/// `hay` with the first occurrence of `needle` replaced by `with`
/// (`str::replacen` with a count of one).
pub open spec fn replaced_first(hay: Seq<char>, needle: Seq<char>, with: Seq<char>) -> Seq<char> {
    match first_occurrence(hay, needle, 0) {
        Some(i) => hay.take(i) + with + hay.skip(i + needle.len()),
        None => hay,
    }
}

/// XML with `addition` placed before the first `closing_tag`, unless it
/// already holds `marker`.
pub open spec fn registered(xml: Seq<char>, closing_tag: Seq<char>, addition: Seq<char>, marker: Seq<char>) -> Seq<
    char,
> {
    if first_occurrence(xml, marker, 0) is Some {
        xml
    } else {
        replaced_first(xml, closing_tag, addition + closing_tag)
    }
}

fn register(xml: &str, closing_tag: &str, addition: &str, marker: &str) -> (out: String)
    ensures
        out@ == registered(xml@, closing_tag@, addition@, marker@),
{
    let chars = chars_of(xml);
    let m = chars_of(marker);
    if find_from(chars.as_slice(), m.as_slice(), 0).is_some() {
        return xml.to_owned();
    }
    let closing = chars_of(closing_tag);
    match find_from(chars.as_slice(), closing.as_slice(), 0) {
        Some(i) => {
            proof {
                lemma_first_occurrence(chars@, closing@, 0);
            }
            assert(occurs_at(chars@, closing@, i as int));
            assert(i + closing.len() <= chars.len());
            let end = i + closing.len();
            let mut out = string_of_range(chars.as_slice(), 0, i);
            out.append(addition);
            out.append(closing_tag);
            let rest = string_of_range(chars.as_slice(), end, chars.len());
            out.append(rest.as_str());
            proof {
                assert(chars@.subrange(0, i as int) =~= chars@.take(i as int));
                assert(chars@.subrange(i + closing@.len(), chars@.len() as int) =~= chars@.skip(i + closing@.len()));
            }
            out
        },
        None => xml.to_owned(),
    }
}

/// The `Override` element of custom properties.
pub open spec fn custom_override() -> Seq<char> {
    override_element(
        "/docProps/custom.xml"@,
        "application/vnd.openxmlformats-officedocument.custom-properties+xml"@,
    )
}

/// The root relationship of custom properties.
pub open spec fn custom_relationship() -> Seq<char> {
    relationship_element(
        "rIdCustomProperties"@,
        "http://schemas.openxmlformats.org/officeDocument/2006/relationships/custom-properties"@,
        "docProps/custom.xml"@,
    )
}

/// Registers the custom properties part in content-types XML, unless it is
/// already registered.
pub fn add_content_type_override(xml: &str) -> (out: String)
    ensures
        out@ == registered(xml@, "</Types>"@, custom_override(), "PartName=\"/docProps/custom.xml\""@),
{
    proof {
        reveal_strlit("<Override PartName=\"");
        reveal_strlit("/docProps/custom.xml");
        reveal_strlit("\" ContentType=\"");
        reveal_strlit("application/vnd.openxmlformats-officedocument.custom-properties+xml");
        reveal_strlit("\"/>");
        reveal_strlit(
            "<Override PartName=\"/docProps/custom.xml\" ContentType=\"application/vnd.openxmlformats-officedocument.custom-properties+xml\"/>",
        );
        assert("<Override PartName=\"/docProps/custom.xml\" ContentType=\"application/vnd.openxmlformats-officedocument.custom-properties+xml\"/>"@
            =~= custom_override());
    }
    register(
        xml,
        "</Types>",
        "<Override PartName=\"/docProps/custom.xml\" ContentType=\"application/vnd.openxmlformats-officedocument.custom-properties+xml\"/>",
        "PartName=\"/docProps/custom.xml\"",
    )
}

/// Adds the custom properties relationship to root relationships XML,
/// unless the XML already mentions its type.
pub fn add_custom_property_relationship(xml: &str) -> (out: String)
    ensures
        out@ == registered(
            xml@,
            "</Relationships>"@,
            custom_relationship(),
            "http://schemas.openxmlformats.org/officeDocument/2006/relationships/custom-properties"@,
        ),
{
    proof {
        reveal_strlit("<Relationship Id=\"");
        reveal_strlit("rIdCustomProperties");
        reveal_strlit("\" Type=\"");
        reveal_strlit("http://schemas.openxmlformats.org/officeDocument/2006/relationships/custom-properties");
        reveal_strlit("\" Target=\"");
        reveal_strlit("docProps/custom.xml");
        reveal_strlit("\"/>");
        reveal_strlit(
            "<Relationship Id=\"rIdCustomProperties\" Type=\"http://schemas.openxmlformats.org/officeDocument/2006/relationships/custom-properties\" Target=\"docProps/custom.xml\"/>",
        );
        assert("<Relationship Id=\"rIdCustomProperties\" Type=\"http://schemas.openxmlformats.org/officeDocument/2006/relationships/custom-properties\" Target=\"docProps/custom.xml\"/>"@
            =~= custom_relationship());
    }
    register(
        xml,
        "</Relationships>",
        "<Relationship Id=\"rIdCustomProperties\" Type=\"http://schemas.openxmlformats.org/officeDocument/2006/relationships/custom-properties\" Target=\"docProps/custom.xml\"/>",
        "http://schemas.openxmlformats.org/officeDocument/2006/relationships/custom-properties",
    )
}

/// The path of the archive written beside a file before it replaces it.
pub fn temporary_path_for(path: &str) -> (temporary: String)
    ensures
        temporary@ == path@ + ".metadata-tmp"@,
{
    let mut temporary = path.to_owned();
    temporary.append(".metadata-tmp");
    temporary
}

/// One entry of an archive: its name, whether it is a directory, and its
/// content.
pub struct ArchiveItem {
    pub name: String,
    pub is_dir: bool,
    pub content: Vec<u8>,
}

/// The mathematical value of an [`ArchiveItem`].
pub struct ItemView {
    pub name: Seq<char>,
    pub is_dir: bool,
    pub content: Seq<u8>,
}

impl View for ArchiveItem {
    type V = ItemView;

    open spec fn view(&self) -> ItemView {
        ItemView { name: self.name@, is_dir: self.is_dir, content: self.content@ }
    }
}

/// The views of a list of archive entries.
pub open spec fn items_view(items: Seq<ArchiveItem>) -> Seq<ItemView> {
    items.map_values(|i: ArchiveItem| i@)
}

/// A text part after a rewrite of its text; `None` when it is not UTF-8.
pub open spec fn text_rewritten(content: Seq<u8>, rewritten: Seq<char>) -> Option<Seq<u8>> {
    if valid_utf8(content) {
        Some(encode_utf8(rewritten))
    } else {
        None
    }
}

/// One entry after recording a source: the custom properties replaced, the
/// content types and root relationships registering them, every other
/// entry copied; `None` when a registered part is not UTF-8.
pub open spec fn source_item(item: ItemView, custom: Seq<u8>) -> Option<ItemView> {
    if item.name == "docProps/custom.xml"@ {
        Some(ItemView { content: custom, ..item })
    } else if item.name == "[Content_Types].xml"@ {
        match text_rewritten(
            item.content,
            registered(
                decode_utf8(item.content),
                "</Types>"@,
                custom_override(),
                "PartName=\"/docProps/custom.xml\""@,
            ),
        ) {
            Some(c) => Some(ItemView { content: c, ..item }),
            None => None,
        }
    } else if item.name == "_rels/.rels"@ {
        match text_rewritten(
            item.content,
            registered(
                decode_utf8(item.content),
                "</Relationships>"@,
                custom_relationship(),
                "http://schemas.openxmlformats.org/officeDocument/2006/relationships/custom-properties"@,
            ),
        ) {
            Some(c) => Some(ItemView { content: c, ..item }),
            None => None,
        }
    } else {
        Some(item)
    }
}

/// The entries of the first `n` items after recording a source.
pub open spec fn source_items_prefix(items: Seq<ItemView>, n: int, custom: Seq<u8>) -> Option<Seq<ItemView>>
    decreases n,
{
    if n <= 0 || n > items.len() {
        Some(Seq::empty())
    } else {
        match (source_items_prefix(items, n - 1, custom), source_item(items[n - 1], custom)) {
            (Some(done), Some(item)) => Some(done.push(item)),
            _ => None,
        }
    }
}

/// The entries of an archive after recording a source: each entry
/// rewritten, and the custom properties appended when no entry held them.
pub open spec fn source_items(items: Seq<ItemView>, custom: Seq<u8>) -> Option<Seq<ItemView>> {
    match source_items_prefix(items, items.len() as int, custom) {
        Some(done) => if exists|i: int| 0 <= i < items.len() && #[trigger] items[i].name == "docProps/custom.xml"@ {
            Some(done)
        } else {
            Some(done.push(ItemView { name: "docProps/custom.xml"@, is_dir: false, content: custom }))
        },
        None => None,
    }
}

proof fn lemma_items_failed(items: Seq<ItemView>, n: int, m: int, custom: Seq<u8>)
    requires
        0 < n <= m <= items.len(),
        source_items_prefix(items, n, custom) is None,
    ensures
        source_items_prefix(items, m, custom) is None,
    decreases m - n,
{
    if n < m {
        lemma_items_failed(items, n, m - 1, custom);
    }
}

fn rewrite_text_part(content: &[u8], types: bool) -> (out: Option<Vec<u8>>)
    ensures
        match out {
            Some(c) => valid_utf8(content@) && c@ == encode_utf8(
                if types {
                    registered(decode_utf8(content@), "</Types>"@, custom_override(), "PartName=\"/docProps/custom.xml\""@)
                } else {
                    registered(
                        decode_utf8(content@),
                        "</Relationships>"@,
                        custom_relationship(),
                        "http://schemas.openxmlformats.org/officeDocument/2006/relationships/custom-properties"@,
                    )
                },
            ),
            None => !valid_utf8(content@),
        },
{
    let text = match utf8_text(content) {
        Ok(text) => text,
        Err(_) => return None,
    };
    let rewritten = if types {
        add_content_type_override(text.as_str())
    } else {
        add_custom_property_relationship(text.as_str())
    };
    Some(rewritten.as_str().as_bytes_vec())
}

/// Records a source in the entries of an archive: the existing custom
/// properties (read beforehand) are rewritten with the source, the entries
/// that register them updated, and the part appended when it was missing.
/// `None` when the source property's id would not fit an `i32`.
pub fn add_source_items(items: Vec<ArchiveItem>, existing: Option<&[u8]>, source: &str) -> (out: Result<
    Option<Vec<ArchiveItem>>,
    OfficeError,
>)
    ensures
        ({
            let existing_view = match existing {
                Some(x) => Some(x@),
                None => None,
            };
            if pid_overflows(existing_view, source@) {
                out matches Ok(None)
            } else {
                match updated_custom_properties(existing_view, source@) {
                    Some(custom) => match source_items(items_view(items@), custom) {
                        Some(expected) => out matches Ok(Some(v)) && items_view(v@) == expected,
                        None => out matches Err(e) && e is Io,
                    },
                    None => out matches Err(e) && (existing matches Some(x) && read_error(x@, false, e)),
                }
            }
        }),
{
    if source_pid_overflows(existing, source) {
        return Ok(None);
    }
    let custom = update_custom_properties(existing, source)?;
    let ghost all = items_view(items@);
    let mut out: Vec<ArchiveItem> = Vec::new();
    let mut has_custom = false;
    let mut k: usize = 0;
    assert(items_view(out@) =~= Seq::<ItemView>::empty());
    while k < items.len()
        invariant
            k <= items.len(),
            all == items_view(items@),
            updated_custom_properties(
                match existing {
                    Some(x) => Some(x@),
                    None => None,
                },
                source@,
            ) == Some(custom@),
            source_items_prefix(all, k as int, custom@) == Some(items_view(out@)),
            has_custom <==> exists|i: int| 0 <= i < k && #[trigger] all[i].name == "docProps/custom.xml"@,
            !pid_overflows(
                match existing {
                    Some(x) => Some(x@),
                    None => None,
                },
                source@,
            ),
        decreases items.len() - k,
    {
        let ghost before_o = items_view(out@);
        let item = &items[k];
        assert(all[k as int] == item@);
        let name = item.name.clone();
        let new_item = if is_named(name.as_str(), "docProps/custom.xml") {
            has_custom = true;
            ArchiveItem { name, is_dir: item.is_dir, content: slice_to_vec(custom.as_slice()) }
        } else if is_named(name.as_str(), "[Content_Types].xml") {
            match rewrite_text_part(item.content.as_slice(), true) {
                Some(c) => ArchiveItem { name, is_dir: item.is_dir, content: c },
                None => {
                    proof {
                        lemma_items_failed(all, k + 1, all.len() as int, custom@);
                    }
                    return Err(OfficeError::Io(String::from_str("stream did not contain valid UTF-8")));
                },
            }
        } else if is_named(name.as_str(), "_rels/.rels") {
            match rewrite_text_part(item.content.as_slice(), false) {
                Some(c) => ArchiveItem { name, is_dir: item.is_dir, content: c },
                None => {
                    proof {
                        lemma_items_failed(all, k + 1, all.len() as int, custom@);
                    }
                    return Err(OfficeError::Io(String::from_str("stream did not contain valid UTF-8")));
                },
            }
        } else {
            ArchiveItem { name, is_dir: item.is_dir, content: slice_to_vec(item.content.as_slice()) }
        };
        out.push(new_item);
        assert(items_view(out@) =~= before_o.push(new_item@));
        k = k + 1;
    }
    if !has_custom {
        let ghost before_o = items_view(out@);
        out.push(ArchiveItem { name: String::from_str("docProps/custom.xml"), is_dir: false, content: custom });
        assert(items_view(out@) =~= before_o.push(ItemView { name: "docProps/custom.xml"@, is_dir: false, content: custom@ }));
    }
    Ok(Some(out))
}

} // verus!
