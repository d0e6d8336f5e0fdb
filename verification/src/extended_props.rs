//! Extended (application) properties (`docProps/app.xml`).
use crate::elements::{elements_view, parse_text_elements, xml_elements, TextElement};
use crate::error::{invalid_document_with, OfficeError};
use crate::keywords::strings_view;
use crate::metadata::{heading_pairs_view, ExtendedView, HeadingPair, OfficeMetadata};
use crate::numbers::{
    bool_text, decimal, decimal_text, flag_text, parse_bool, parse_u32, parsed_bool, parsed_u32, push_decimal,
};
use crate::package::OoxmlPackage;
use crate::part::{normalized_part_name, PartName};
use crate::word_text::is_named;
use crate::xml::{event_views, markup, EventView, XmlEvent, XmlTag};
use crate::xml_build::{
    declaration, events_bytes, optional_element, push_event, push_optional_element, push_text_element,
    standalone_declaration, text_element,
};
use crate::xml_reader::{parsed_events, read_error, read_events};
use crate::xml_text::{decode_text, decoded_text, local_name, local_name_of};
use vstd::prelude::*;
use vstd::string::{StrSliceExecFns, StringExecFns};
use vstd::utf8::encode_utf8;

verus! {

/// The name of the extended properties part.
pub const DOC_PROPS_APP: &'static str = "docProps/app.xml";

/// Extended properties after one element: known names set their property;
/// numbers and flags that do not parse leave it unset; other names, among
/// them the vectors, are ignored.
pub open spec fn extended_with(ext: ExtendedView, name: Seq<char>, value: Seq<char>) -> ExtendedView {
    if name == "Application"@ {
        ExtendedView { application: Some(value), ..ext }
    } else if name == "AppVersion"@ {
        ExtendedView { app_version: Some(value), ..ext }
    } else if name == "Template"@ {
        ExtendedView { template: Some(value), ..ext }
    } else if name == "Company"@ {
        ExtendedView { company: Some(value), ..ext }
    } else if name == "TotalTime"@ {
        ExtendedView { total_time: parsed_u32(value), ..ext }
    } else if name == "Pages"@ {
        ExtendedView { pages: parsed_u32(value), ..ext }
    } else if name == "Words"@ {
        ExtendedView { words: parsed_u32(value), ..ext }
    } else if name == "Characters"@ {
        ExtendedView { characters: parsed_u32(value), ..ext }
    } else if name == "CharactersWithSpaces"@ {
        ExtendedView { characters_with_spaces: parsed_u32(value), ..ext }
    } else if name == "Lines"@ {
        ExtendedView { lines: parsed_u32(value), ..ext }
    } else if name == "Paragraphs"@ {
        ExtendedView { paragraphs: parsed_u32(value), ..ext }
    } else if name == "DocSecurity"@ {
        ExtendedView { doc_security: parsed_u32(value), ..ext }
    } else if name == "ScaleCrop"@ {
        ExtendedView { scale_crop: parsed_bool(value), ..ext }
    } else if name == "LinksUpToDate"@ {
        ExtendedView { links_up_to_date: parsed_bool(value), ..ext }
    } else if name == "SharedDoc"@ {
        ExtendedView { shared_doc: parsed_bool(value), ..ext }
    } else if name == "HyperlinksChanged"@ {
        ExtendedView { hyperlinks_changed: parsed_bool(value), ..ext }
    } else if name == "DigSig"@ {
        ExtendedView { dig_sig: Some(value), ..ext }
    } else {
        ext
    }
}

/// Extended properties after a list of elements, applied in order.
pub open spec fn extended_applied(ext: ExtendedView, elements: Seq<(Seq<char>, Seq<char>)>) -> ExtendedView
    decreases elements.len(),
{
    if elements.len() == 0 {
        ext
    } else {
        extended_with(extended_applied(ext, elements.drop_last()), elements.last().0, elements.last().1)
    }
}

/// Applies parsed extended property elements to the metadata.
pub fn apply_properties(properties: Vec<TextElement>, metadata: &mut OfficeMetadata)
    ensures
        final(metadata)@.extended == extended_applied(old(metadata)@.extended, elements_view(properties@)),
        final(metadata)@.core == old(metadata)@.core,
        final(metadata)@.custom == old(metadata)@.custom,
{
    let ghost initial = metadata@.extended;
    let ghost all = elements_view(properties@);
    let mut i: usize = 0;
    while i < properties.len()
        invariant
            i <= properties.len(),
            all == elements_view(properties@),
            metadata@.extended == extended_applied(initial, all.take(i as int)),
            metadata@.core == old(metadata)@.core,
            metadata@.custom == old(metadata)@.custom,
        decreases properties.len() - i,
    {
        let name = properties[i].name.as_str();
        let value = &properties[i].value;
        assert(all.take(i + 1).drop_last() =~= all.take(i as int));
        assert(all.take(i + 1).last() == (name@, value@));
        let ext = &mut metadata.extended;
        if is_named(name, "Application") {
            ext.application = Some(value.clone());
        } else if is_named(name, "AppVersion") {
            ext.app_version = Some(value.clone());
        } else if is_named(name, "Template") {
            ext.template = Some(value.clone());
        } else if is_named(name, "Company") {
            ext.company = Some(value.clone());
        } else if is_named(name, "TotalTime") {
            ext.total_time = parse_u32(value.as_str());
        } else if is_named(name, "Pages") {
            ext.pages = parse_u32(value.as_str());
        } else if is_named(name, "Words") {
            ext.words = parse_u32(value.as_str());
        } else if is_named(name, "Characters") {
            ext.characters = parse_u32(value.as_str());
        } else if is_named(name, "CharactersWithSpaces") {
            ext.characters_with_spaces = parse_u32(value.as_str());
        } else if is_named(name, "Lines") {
            ext.lines = parse_u32(value.as_str());
        } else if is_named(name, "Paragraphs") {
            ext.paragraphs = parse_u32(value.as_str());
        } else if is_named(name, "DocSecurity") {
            ext.doc_security = parse_u32(value.as_str());
        } else if is_named(name, "ScaleCrop") {
            ext.scale_crop = parse_bool(value.as_str());
        } else if is_named(name, "LinksUpToDate") {
            ext.links_up_to_date = parse_bool(value.as_str());
        } else if is_named(name, "SharedDoc") {
            ext.shared_doc = parse_bool(value.as_str());
        } else if is_named(name, "HyperlinksChanged") {
            ext.hyperlinks_changed = parse_bool(value.as_str());
        } else if is_named(name, "DigSig") {
            ext.dig_sig = Some(value.clone());
        }
        i = i + 1;
    }
    assert(all.take(properties.len() as int) =~= all);
}

/// The vector property being read.
#[derive(PartialEq, Eq, Structural, Clone, Copy)]
pub enum VectorKind {
    HeadingPairs,
    TitlesOfParts,
}

/// The progress of reading the vector properties: the vector being read,
/// the non-empty texts read in it, and the heading pairs and titles set so
/// far.
pub struct VectorsState {
    pub property: Option<VectorKind>,
    pub values: Seq<Seq<char>>,
    pub heading_pairs: Option<Seq<(Seq<char>, u32)>>,
    pub titles: Option<Seq<Seq<char>>>,
}

/// Heading pairs from the texts of their vector, taken two by two as a name
/// and a count; `None` when the texts do not pair up or a count is not a
/// `u32`.
pub open spec fn heading_pairs_of(values: Seq<Seq<char>>) -> Option<Seq<(Seq<char>, u32)>>
    decreases values.len(),
{
    if values.len() % 2 != 0 {
        None
    } else if values.len() == 0 {
        Some(Seq::empty())
    } else {
        match (heading_pairs_of(values.take(values.len() - 2)), parsed_u32(values.last())) {
            (Some(pairs), Some(count)) => Some(pairs.push((values[values.len() - 2], count))),
            _ => None,
        }
    }
}

/// One event of reading the vector properties. The start of `HeadingPairs`
/// or `TitlesOfParts` begins a vector; inside one, the decoded non-empty
/// texts are collected; the end of the vector sets its property. `None`
/// once text cannot be decoded or heading pairs are malformed.
pub open spec fn vectors_step(state: Option<VectorsState>, event: EventView) -> Option<VectorsState> {
    match state {
        None => None,
        Some(st) => match event {
            EventView::Start(name, _) => if local_name(name) == "HeadingPairs"@ {
                Some(VectorsState { property: Some(VectorKind::HeadingPairs), values: Seq::empty(), ..st })
            } else if local_name(name) == "TitlesOfParts"@ {
                Some(VectorsState { property: Some(VectorKind::TitlesOfParts), values: Seq::empty(), ..st })
            } else {
                Some(st)
            },
            EventView::Text(raw) => if st.property is Some {
                match decoded_text(raw) {
                    Some(v) => if v.len() > 0 {
                        Some(VectorsState { values: st.values.push(v), ..st })
                    } else {
                        Some(st)
                    },
                    None => None,
                }
            } else {
                Some(st)
            },
            EventView::End(name) => if st.property == Some(VectorKind::HeadingPairs) && local_name(name)
                == "HeadingPairs"@ {
                match heading_pairs_of(st.values) {
                    Some(pairs) => Some(VectorsState { property: None, heading_pairs: Some(pairs), ..st }),
                    None => None,
                }
            } else if st.property == Some(VectorKind::TitlesOfParts) && local_name(name) == "TitlesOfParts"@ {
                Some(VectorsState { property: None, values: Seq::empty(), titles: Some(st.values), ..st })
            } else {
                Some(st)
            },
            _ => Some(st),
        },
    }
}

/// The state after the first `n` events.
pub open spec fn vectors_fold(events: Seq<EventView>, n: int) -> Option<VectorsState>
    decreases n,
{
    if n <= 0 || n > events.len() {
        Some(VectorsState { property: None, values: Seq::empty(), heading_pairs: None, titles: None })
    } else {
        vectors_step(vectors_fold(events, n - 1), events[n - 1])
    }
}

/// The heading pairs and titles that an extended properties part sets, each
/// `None` when the part has no such vector; `None` when the part cannot be
/// read.
pub open spec fn xml_vectors(xml: Seq<u8>) -> Option<(Option<Seq<(Seq<char>, u32)>>, Option<Seq<Seq<char>>>)> {
    match parsed_events(xml, true) {
        Some(events) => match vectors_fold(events, events.len() as int) {
            Some(st) => Some((st.heading_pairs, st.titles)),
            None => None,
        },
        None => None,
    }
}

/// A value that was set, or else the one before.
pub open spec fn set_or<T>(set: Option<T>, before: T) -> T {
    match set {
        Some(v) => v,
        None => before,
    }
}

proof fn lemma_vectors_failed(events: Seq<EventView>, n: int, m: int)
    requires
        0 < n <= m <= events.len(),
        vectors_fold(events, n) is None,
    ensures
        vectors_fold(events, m) is None,
    decreases m - n,
{
    if n < m {
        lemma_vectors_failed(events, n, m - 1);
    }
}

proof fn lemma_heading_pairs_failed(values: Seq<Seq<char>>, j: int)
    requires
        0 <= j <= values.len(),
        j % 2 == 0,
        values.len() % 2 == 0,
        heading_pairs_of(values.take(j)) is None,
    ensures
        heading_pairs_of(values) is None,
    decreases values.len() - j,
{
    if j == values.len() {
        assert(values.take(j) =~= values);
    } else {
        let t = values.take(j + 2);
        assert(t.take(j) =~= values.take(j));
        assert(heading_pairs_of(t) is None);
        lemma_heading_pairs_failed(values, j + 2);
    }
}

/// The message of the error that ends reading the vectors at `event`, in
/// state `st`, where the reader can say it: at the end of `HeadingPairs`,
/// an odd number of values, or a count that is not an unsigned integer.
pub open spec fn vectors_step_message(st: VectorsState, event: EventView) -> Option<Seq<char>> {
    match event {
        EventView::End(_) => if st.values.len() % 2 != 0 {
            Some("HeadingPairs must contain name/count pairs"@)
        } else {
            Some("HeadingPairs count must be an unsigned integer"@)
        },
        _ => None,
    }
}

/// The message of the error that ends reading the vectors within the first
/// `n` events, where the reader can say it.
pub open spec fn vectors_failure_message(events: Seq<EventView>, n: int) -> Option<Seq<char>>
    decreases n,
{
    if n <= 0 || n > events.len() {
        None
    } else {
        match vectors_fold(events, n - 1) {
            Some(st) => if vectors_step(Some(st), events[n - 1]) is None {
                vectors_step_message(st, events[n - 1])
            } else {
                None
            },
            None => vectors_failure_message(events, n - 1),
        }
    }
}

/// The error of reading the vectors of an extended properties part that
/// fails: that of [`read_error`], carrying the message of
/// [`vectors_failure_message`] where there is one.
pub open spec fn vectors_error(xml: Seq<u8>, e: OfficeError) -> bool {
    &&& read_error(xml, true, e)
    &&& match parsed_events(xml, true) {
        Some(events) => match vectors_failure_message(events, events.len() as int) {
            Some(m) => invalid_document_with(e, m),
            None => true,
        },
        None => true,
    }
}

proof fn lemma_failure_message_stays(events: Seq<EventView>, n: int, m: int)
    requires
        0 < n <= m <= events.len(),
        vectors_fold(events, n) is None,
    ensures
        vectors_failure_message(events, m) == vectors_failure_message(events, n),
    decreases m - n,
{
    if n < m {
        lemma_vectors_failed(events, n, m - 1);
        lemma_failure_message_stays(events, n, m - 1);
    }
}

fn invalid_vector(detail: String) -> (e: OfficeError)
    ensures
        e is InvalidDocument,
{
    let mut message = String::from_str("Invalid extended metadata: ");
    message.append(detail.as_str());
    OfficeError::InvalidDocument(message)
}

/// Pairs the texts of a `HeadingPairs` vector into names and counts.
pub fn heading_pairs_from(values: &Vec<String>) -> (pairs: Option<Vec<HeadingPair>>)
    ensures
        match pairs {
            Some(p) => heading_pairs_of(strings_view(values@)) == Some(heading_pairs_view(p@)),
            None => heading_pairs_of(strings_view(values@)) is None,
        },
{
    let ghost vs = strings_view(values@);
    if values.len() % 2 != 0 {
        return None;
    }
    let mut pairs: Vec<HeadingPair> = Vec::new();
    let mut k: usize = 0;
    assert(vs.take(0) =~= Seq::<Seq<char>>::empty());
    assert(heading_pairs_view(pairs@) =~= Seq::<(Seq<char>, u32)>::empty());
    while k < values.len()
        invariant
            vs == strings_view(values@),
            values.len() % 2 == 0,
            k % 2 == 0,
            k <= values.len(),
            heading_pairs_of(vs.take(k as int)) == Some(heading_pairs_view(pairs@)),
        decreases values.len() - k,
    {
        let ghost before = pairs@;
        let ghost t = vs.take(k + 2);
        assert(t.take(k as int) =~= vs.take(k as int));
        assert(t.last() == vs[k + 1]);
        assert(t[k as int] == vs[k as int]);
        match parse_u32(values[k + 1].as_str()) {
            Some(count) => {
                pairs.push(HeadingPair { name: values[k].clone(), count });
                assert(heading_pairs_view(pairs@) =~= heading_pairs_view(before).push((vs[k as int], count)));
            },
            None => {
                proof {
                    lemma_heading_pairs_failed(vs, k + 2);
                }
                return None;
            },
        }
        k = k + 2;
    }
    assert(vs.take(values.len() as int) =~= vs);
    Some(pairs)
}

/// Reads the `HeadingPairs` and `TitlesOfParts` vectors of an extended
/// properties part into the metadata.
pub fn read_vectors(xml: &[u8], metadata: &mut OfficeMetadata) -> (done: Result<(), OfficeError>)
    ensures
        match xml_vectors(xml@) {
            Some((heading_pairs, titles)) => done is Ok && final(metadata)@.extended == (ExtendedView {
                heading_pairs: set_or(heading_pairs, old(metadata)@.extended.heading_pairs),
                titles_of_parts: set_or(titles, old(metadata)@.extended.titles_of_parts),
                ..old(metadata)@.extended
            }) && final(metadata)@.core == old(metadata)@.core && final(metadata)@.custom == old(metadata)@.custom,
            None => final(metadata)@ == old(metadata)@ && (done matches Err(e) && vectors_error(xml@, e)),
        },
{
    let events = read_events(xml, true)?;
    let ghost ev = event_views(events@);
    let mut property: Option<VectorKind> = None;
    let mut values: Vec<String> = Vec::new();
    let mut heading: Option<Vec<HeadingPair>> = None;
    let mut titles: Option<Vec<String>> = None;
    assert(strings_view(values@) =~= Seq::<Seq<char>>::empty());
    let mut k: usize = 0;
    while k < events.len()
        invariant
            k <= events.len(),
            ev == event_views(events@),
            parsed_events(xml@, true) == Some(ev),
            metadata@ == old(metadata)@,
            vectors_fold(ev, k as int) == Some(
                VectorsState {
                    property,
                    values: strings_view(values@),
                    heading_pairs: match heading {
                        Some(h) => Some(heading_pairs_view(h@)),
                        None => None,
                    },
                    titles: match titles {
                        Some(t) => Some(strings_view(t@)),
                        None => None,
                    },
                },
            ),
        decreases events.len() - k,
    {
        let ghost before = values@;
        match &events[k] {
            XmlEvent::Start(tag) => {
                let local = local_name_of(tag.name.as_str());
                if is_named(local.as_str(), "HeadingPairs") {
                    property = Some(VectorKind::HeadingPairs);
                    values = Vec::new();
                    assert(strings_view(values@) =~= Seq::<Seq<char>>::empty());
                } else if is_named(local.as_str(), "TitlesOfParts") {
                    property = Some(VectorKind::TitlesOfParts);
                    values = Vec::new();
                    assert(strings_view(values@) =~= Seq::<Seq<char>>::empty());
                }
            },
            XmlEvent::Text(raw) => {
                if property.is_some() {
                    match decode_text(raw.as_str()) {
                        Ok(v) => {
                            if !v.as_str().is_empty() {
                                values.push(v);
                                assert(strings_view(values@) =~= strings_view(before).push(v@));
                            }
                        },
                        Err(detail) => {
                            proof {
                                lemma_vectors_failed(ev, k + 1, ev.len() as int);
                                lemma_failure_message_stays(ev, k + 1, ev.len() as int);
                            }
                            return Err(invalid_vector(detail));
                        },
                    }
                }
            },
            XmlEvent::End(name) => {
                let local = local_name_of(name.as_str());
                if property == Some(VectorKind::HeadingPairs) && is_named(local.as_str(), "HeadingPairs") {
                    match heading_pairs_from(&values) {
                        Some(pairs) => {
                            heading = Some(pairs);
                            property = None;
                        },
                        None => {
                            proof {
                                lemma_vectors_failed(ev, k + 1, ev.len() as int);
                                lemma_failure_message_stays(ev, k + 1, ev.len() as int);
                                reveal_strlit("HeadingPairs must contain name/count pairs");
                                reveal_strlit("HeadingPairs count must be an unsigned integer");
                            }
                            if values.len() % 2 != 0 {
                                return Err(
                                    OfficeError::InvalidDocument(
                                        String::from_str("HeadingPairs must contain name/count pairs"),
                                    ),
                                );
                            }
                            return Err(
                                OfficeError::InvalidDocument(
                                    String::from_str("HeadingPairs count must be an unsigned integer"),
                                ),
                            );
                        },
                    }
                } else if property == Some(VectorKind::TitlesOfParts) && is_named(local.as_str(), "TitlesOfParts") {
                    titles = Some(values);
                    values = Vec::new();
                    assert(strings_view(values@) =~= Seq::<Seq<char>>::empty());
                    property = None;
                }
            },
            _ => {},
        }
        k = k + 1;
    }
    match heading {
        Some(h) => {
            metadata.extended.heading_pairs = h;
        },
        None => {},
    }
    match titles {
        Some(t) => {
            metadata.extended.titles_of_parts = t;
        },
        None => {},
    }
    Ok(())
}

/// The events of an optional number element.
pub open spec fn number_element(name: Seq<char>, value: Option<u32>) -> Seq<EventView> {
    match value {
        Some(n) => text_element(name, Seq::empty(), decimal(n as nat)),
        None => Seq::empty(),
    }
}

/// The events of an optional flag element.
pub open spec fn flag_element(name: Seq<char>, value: Option<bool>) -> Seq<EventView> {
    match value {
        Some(b) => text_element(name, Seq::empty(), bool_text(b)),
        None => Seq::empty(),
    }
}

/// The events of one heading pair: a variant holding the name as a string
/// and a variant holding the count as a four-byte integer.
pub open spec fn heading_pair_events(pair: (Seq<char>, u32)) -> Seq<EventView> {
    seq![EventView::Start("vt:variant"@, Seq::empty())] + text_element("vt:lpstr"@, Seq::empty(), pair.0) + seq![
        EventView::End("vt:variant"@),
        EventView::Start("vt:variant"@, Seq::empty()),
    ] + text_element("vt:i4"@, Seq::empty(), decimal(pair.1 as nat)) + seq![EventView::End("vt:variant"@)]
}

/// The events of a list of heading pairs.
pub open spec fn heading_pair_list_events(pairs: Seq<(Seq<char>, u32)>) -> Seq<EventView>
    decreases pairs.len(),
{
    if pairs.len() == 0 {
        Seq::empty()
    } else {
        heading_pair_list_events(pairs.drop_last()) + heading_pair_events(pairs.last())
    }
}

/// The attributes of a vector of `size` items of a base type.
pub open spec fn vector_attributes(size: nat, base_type: Seq<char>) -> Seq<char> {
    " size=\""@ + decimal(size) + "\" baseType=\""@ + base_type + "\""@
}

/// The events of the `HeadingPairs` property: none when there are no pairs.
pub open spec fn heading_pairs_events(pairs: Seq<(Seq<char>, u32)>) -> Seq<EventView> {
    if pairs.len() == 0 {
        Seq::empty()
    } else {
        seq![
            EventView::Start("HeadingPairs"@, Seq::empty()),
            EventView::Start("vt:vector"@, vector_attributes(2 * pairs.len(), "variant"@)),
        ] + heading_pair_list_events(pairs) + seq![EventView::End("vt:vector"@), EventView::End("HeadingPairs"@)]
    }
}

/// The events of a list of titles, each a string.
pub open spec fn title_list_events(titles: Seq<Seq<char>>) -> Seq<EventView>
    decreases titles.len(),
{
    if titles.len() == 0 {
        Seq::empty()
    } else {
        title_list_events(titles.drop_last()) + text_element("vt:lpstr"@, Seq::empty(), titles.last())
    }
}

/// The events of the `TitlesOfParts` property: none when there are no titles.
pub open spec fn titles_events(titles: Seq<Seq<char>>) -> Seq<EventView> {
    if titles.len() == 0 {
        Seq::empty()
    } else {
        seq![
            EventView::Start("TitlesOfParts"@, Seq::empty()),
            EventView::Start("vt:vector"@, vector_attributes(titles.len(), "lpstr"@)),
        ] + title_list_events(titles) + seq![EventView::End("vt:vector"@), EventView::End("TitlesOfParts"@)]
    }
}

/// The attributes of the root of generated extended properties.
pub open spec fn extended_root_attributes() -> Seq<char> {
    " xmlns=\"http://schemas.openxmlformats.org/officeDocument/2006/extended-properties\" xmlns:vt=\"http://schemas.openxmlformats.org/officeDocument/2006/docPropsVTypes\""@
}

/// The events of generated extended properties: the declaration, the root,
/// one element for each set property (texts only when not empty), the
/// vectors when not empty, in a fixed order, and the root's end.
pub open spec fn extended_events(ext: ExtendedView) -> Seq<EventView> {
    seq![standalone_declaration(), EventView::Start("Properties"@, extended_root_attributes())]
        + optional_element("Application"@, Seq::empty(), ext.application)
        + optional_element("AppVersion"@, Seq::empty(), ext.app_version)
        + optional_element("Template"@, Seq::empty(), ext.template)
        + optional_element("Company"@, Seq::empty(), ext.company)
        + number_element("TotalTime"@, ext.total_time)
        + number_element("Pages"@, ext.pages)
        + number_element("Words"@, ext.words)
        + number_element("Characters"@, ext.characters)
        + number_element("CharactersWithSpaces"@, ext.characters_with_spaces)
        + number_element("Lines"@, ext.lines)
        + number_element("Paragraphs"@, ext.paragraphs)
        + number_element("DocSecurity"@, ext.doc_security)
        + flag_element("ScaleCrop"@, ext.scale_crop)
        + flag_element("LinksUpToDate"@, ext.links_up_to_date)
        + flag_element("SharedDoc"@, ext.shared_doc)
        + flag_element("HyperlinksChanged"@, ext.hyperlinks_changed)
        + heading_pairs_events(ext.heading_pairs)
        + titles_events(ext.titles_of_parts)
        + optional_element("DigSig"@, Seq::empty(), ext.dig_sig)
        + seq![EventView::End("Properties"@)]
}

fn push_number_element(events: &mut Vec<XmlEvent>, name: &str, value: Option<u32>)
    ensures
        event_views(final(events)@) == event_views(old(events)@) + number_element(name@, value),
{
    match value {
        Some(n) => {
            let text = decimal_text(n as u128);
            push_text_element(events, name, "", text.as_str());
            proof {
                reveal_strlit("");
                assert(""@ =~= Seq::<char>::empty());
            }
        },
        None => {
            assert(event_views(events@) =~= event_views(events@) + Seq::<EventView>::empty());
        },
    }
}

fn push_flag_element(events: &mut Vec<XmlEvent>, name: &str, value: Option<bool>)
    ensures
        event_views(final(events)@) == event_views(old(events)@) + flag_element(name@, value),
{
    match value {
        Some(b) => {
            let text = flag_text(b);
            push_text_element(events, name, "", text.as_str());
            proof {
                reveal_strlit("");
                assert(""@ =~= Seq::<char>::empty());
            }
        },
        None => {
            assert(event_views(events@) =~= event_views(events@) + Seq::<EventView>::empty());
        },
    }
}

fn start_event(name: &str, attributes: String) -> (e: XmlEvent)
    ensures
        e@ == EventView::Start(name@, attributes@),
{
    XmlEvent::Start(XmlTag { name: name.to_owned(), attributes })
}

fn end_event(name: &str) -> (e: XmlEvent)
    ensures
        e@ == EventView::End(name@),
{
    XmlEvent::End(name.to_owned())
}

fn vector_attribute_text(size: u128, base_type: &str) -> (text: String)
    ensures
        text@ == vector_attributes(size as nat, base_type@),
{
    let mut text = String::from_str(" size=\"");
    push_decimal(&mut text, size);
    text.append("\" baseType=\"");
    text.append(base_type);
    text.append("\"");
    text
}

fn push_heading_pairs(events: &mut Vec<XmlEvent>, pairs: &Vec<HeadingPair>)
    ensures
        event_views(final(events)@) == event_views(old(events)@) + heading_pairs_events(heading_pairs_view(pairs@)),
{
    let ghost hp = heading_pairs_view(pairs@);
    if pairs.len() == 0 {
        assert(event_views(events@) =~= event_views(events@) + Seq::<EventView>::empty());
        return;
    }
    let ghost base = event_views(events@);
    push_event(events, start_event("HeadingPairs", String::new()));
    push_event(events, start_event("vt:vector", vector_attribute_text(pairs.len() as u128 * 2, "variant")));
    let ghost head = event_views(events@);
    let mut i: usize = 0;
    assert(hp.take(0) =~= Seq::<(Seq<char>, u32)>::empty());
    assert(head =~= head + heading_pair_list_events(hp.take(0)));
    while i < pairs.len()
        invariant
            i <= pairs.len(),
            hp == heading_pairs_view(pairs@),
            event_views(events@) == head + heading_pair_list_events(hp.take(i as int)),
        decreases pairs.len() - i,
    {
        let ghost before = event_views(events@);
        push_event(events, start_event("vt:variant", String::new()));
        push_text_element(events, "vt:lpstr", "", pairs[i].name.as_str());
        push_event(events, end_event("vt:variant"));
        push_event(events, start_event("vt:variant", String::new()));
        let count = decimal_text(pairs[i].count as u128);
        push_text_element(events, "vt:i4", "", count.as_str());
        push_event(events, end_event("vt:variant"));
        proof {
            reveal_strlit("");
            assert(""@ =~= Seq::<char>::empty());
            assert(hp.take(i + 1).drop_last() =~= hp.take(i as int));
            assert(hp.take(i + 1).last() == hp[i as int]);
            assert(event_views(events@) =~= before + heading_pair_events(hp[i as int]));
        }
        i = i + 1;
    }
    push_event(events, end_event("vt:vector"));
    push_event(events, end_event("HeadingPairs"));
    proof {
        assert(hp.take(pairs.len() as int) =~= hp);
        assert(event_views(events@) =~= base + heading_pairs_events(hp));
    }
}

fn push_titles(events: &mut Vec<XmlEvent>, titles: &Vec<String>)
    ensures
        event_views(final(events)@) == event_views(old(events)@) + titles_events(strings_view(titles@)),
{
    let ghost ts = strings_view(titles@);
    if titles.len() == 0 {
        assert(event_views(events@) =~= event_views(events@) + Seq::<EventView>::empty());
        return;
    }
    let ghost base = event_views(events@);
    push_event(events, start_event("TitlesOfParts", String::new()));
    push_event(events, start_event("vt:vector", vector_attribute_text(titles.len() as u128, "lpstr")));
    let ghost head = event_views(events@);
    let mut i: usize = 0;
    assert(ts.take(0) =~= Seq::<Seq<char>>::empty());
    assert(head =~= head + title_list_events(ts.take(0)));
    while i < titles.len()
        invariant
            i <= titles.len(),
            ts == strings_view(titles@),
            event_views(events@) == head + title_list_events(ts.take(i as int)),
        decreases titles.len() - i,
    {
        let ghost before = event_views(events@);
        push_text_element(events, "vt:lpstr", "", titles[i].as_str());
        proof {
            reveal_strlit("");
            assert(""@ =~= Seq::<char>::empty());
            assert(ts.take(i + 1).drop_last() =~= ts.take(i as int));
            assert(ts.take(i + 1).last() == ts[i as int]);
            assert(event_views(events@) =~= before + text_element("vt:lpstr"@, Seq::empty(), ts[i as int]));
        }
        i = i + 1;
    }
    push_event(events, end_event("vt:vector"));
    push_event(events, end_event("TitlesOfParts"));
    proof {
        assert(ts.take(titles.len() as int) =~= ts);
        assert(event_views(events@) =~= base + titles_events(ts));
    }
}

/// Generates the extended properties part.
pub fn create_extended_properties(metadata: &OfficeMetadata) -> (xml: Vec<u8>)
    ensures
        xml@ == encode_utf8(markup(extended_events(metadata@.extended))),
{
    let ext = &metadata.extended;
    let mut events: Vec<XmlEvent> = Vec::new();
    push_event(&mut events, declaration());
    push_event(
        &mut events,
        start_event(
            "Properties",
            String::from_str(
                " xmlns=\"http://schemas.openxmlformats.org/officeDocument/2006/extended-properties\" xmlns:vt=\"http://schemas.openxmlformats.org/officeDocument/2006/docPropsVTypes\"",
            ),
        ),
    );
    push_optional_element(&mut events, "Application", "", &ext.application);
    push_optional_element(&mut events, "AppVersion", "", &ext.app_version);
    push_optional_element(&mut events, "Template", "", &ext.template);
    push_optional_element(&mut events, "Company", "", &ext.company);
    push_number_element(&mut events, "TotalTime", ext.total_time);
    push_number_element(&mut events, "Pages", ext.pages);
    push_number_element(&mut events, "Words", ext.words);
    push_number_element(&mut events, "Characters", ext.characters);
    push_number_element(&mut events, "CharactersWithSpaces", ext.characters_with_spaces);
    push_number_element(&mut events, "Lines", ext.lines);
    push_number_element(&mut events, "Paragraphs", ext.paragraphs);
    push_number_element(&mut events, "DocSecurity", ext.doc_security);
    push_flag_element(&mut events, "ScaleCrop", ext.scale_crop);
    push_flag_element(&mut events, "LinksUpToDate", ext.links_up_to_date);
    push_flag_element(&mut events, "SharedDoc", ext.shared_doc);
    push_flag_element(&mut events, "HyperlinksChanged", ext.hyperlinks_changed);
    push_heading_pairs(&mut events, &ext.heading_pairs);
    push_titles(&mut events, &ext.titles_of_parts);
    push_optional_element(&mut events, "DigSig", "", &ext.dig_sig);
    push_event(&mut events, end_event("Properties"));
    proof {
        reveal_strlit("");
        assert(""@ =~= Seq::<char>::empty());
        assert(event_views(events@) =~= extended_events(metadata@.extended));
    }
    events_bytes(&events)
}

/// Reads the extended properties part, when the package has one, into the
/// metadata: first its elements, then its vectors.
pub fn read_from(package: &OoxmlPackage, metadata: &mut OfficeMetadata) -> (done: Result<(), OfficeError>)
    ensures
        ({
            let key = normalized_part_name(DOC_PROPS_APP@);
            if !package.contents().dom().contains(key) {
                done is Ok && final(metadata)@ == old(metadata)@
            } else {
                let xml = package.contents()[key];
                match xml_elements(xml) {
                    Some(elements) => {
                        let applied = extended_applied(old(metadata)@.extended, elements);
                        match xml_vectors(xml) {
                            Some((heading_pairs, titles)) => done is Ok && final(metadata)@.extended == (ExtendedView {
                                heading_pairs: set_or(heading_pairs, applied.heading_pairs),
                                titles_of_parts: set_or(titles, applied.titles_of_parts),
                                ..applied
                            }) && final(metadata)@.core == old(metadata)@.core && final(metadata)@.custom == old(
                                metadata,
                            )@.custom,
                            None => done matches Err(e) && vectors_error(xml, e),
                        }
                    },
                    None => final(metadata)@ == old(metadata)@ && (done matches Err(e) && read_error(xml, false, e)),
                }
            }
        }),
{
    let part = PartName::new(DOC_PROPS_APP);
    let xml = match package.read_part(&part) {
        Ok(xml) => xml,
        Err(_) => return Ok(()),
    };
    let elements = parse_text_elements(xml)?;
    apply_properties(elements, metadata);
    read_vectors(xml, metadata)
}

/// Writes the extended properties part.
pub fn write_to(package: &mut OoxmlPackage, metadata: &OfficeMetadata)
    ensures
        final(package).contents() == old(package).contents().insert(
            normalized_part_name(DOC_PROPS_APP@),
            encode_utf8(markup(extended_events(metadata@.extended))),
        ),
        final(package).origin() == old(package).origin(),
{
    let xml = create_extended_properties(metadata);
    package.write_part(PartName::new(DOC_PROPS_APP), xml);
}

} // verus!
