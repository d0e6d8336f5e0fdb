//! Custom document properties (`docProps/custom.xml`).
use crate::attributes::{normalized_attribute, normalized_lookup, tag_attributes};
use crate::error::OfficeError;
use crate::metadata::{text_map_view, OfficeMetadata};
use crate::numbers::{decimal, push_decimal};
use crate::package::OoxmlPackage;
use crate::part::{normalized_part_name, PartName};
use crate::registration::{
    content_types_updated, relationships_updated, CONTENT_TYPES_PART, ROOT_RELATIONSHIPS_PART,
};
use crate::text_map::{sorted_entries, TextMap};
use crate::word_text::is_named;
use crate::closing_tag::lemma_bytes_hold_marker;
use crate::xml::{escape_attribute, escaped_attribute, event_views, markup, EventView, XmlEvent, XmlTag};
use crate::xml_build::{declaration, events_bytes, push_event, push_text_element, standalone_declaration, text_element};
use crate::xml_reader::{parsed_events, read_error, read_events};
use crate::xml_text::{
    decode_reference, decoded_reference, local_name, local_name_of, normalize_eols, normalized_eols,
};
use vstd::prelude::*;
use vstd::string::StringExecFns;
use vstd::utf8::{decode_utf8, encode_utf8, valid_utf8};

verus! {

/// The name of the custom properties part.
pub const DOC_PROPS_CUSTOM: &'static str = "docProps/custom.xml";

/// The part name under which the content-types part registers custom
/// properties.
pub const CUSTOM_PART_NAME: &'static str = "/docProps/custom.xml";

/// The content type of custom properties.
pub const CUSTOM_PROPERTIES_CONTENT_TYPE: &'static str =
    "application/vnd.openxmlformats-officedocument.custom-properties+xml";

/// The relationship type of custom properties.
pub const CUSTOM_PROPERTIES_RELATIONSHIP: &'static str =
    "http://schemas.openxmlformats.org/officeDocument/2006/relationships/custom-properties";

/// The relationship id given to custom properties.
pub const CUSTOM_PROPERTIES_RELATIONSHIP_ID: &'static str = "rIdCustomProperties";

/// The relationship target of custom properties.
pub const CUSTOM_PROPERTIES_TARGET: &'static str = "docProps/custom.xml";

/// The progress of reading custom properties: the name of the property being
/// read, its value so far, the element depth inside it, and the properties
/// read, in order.
pub struct CustomState {
    pub name: Option<Seq<char>>,
    pub value: Seq<char>,
    pub depth: nat,
    pub entries: Seq<(Seq<char>, Seq<char>)>,
}

/// One event of reading custom properties. A `property` start tag begins a
/// property under its `name` attribute; inside its value elements, text,
/// references and CDATA make up the value; its end tag records it. `None`
/// once a name or a reference cannot be decoded.
pub open spec fn custom_step(state: Option<CustomState>, event: EventView) -> Option<CustomState> {
    match state {
        None => None,
        Some(st) => match event {
            EventView::Start(name, attributes) => if local_name(name) == "property"@ {
                match normalized_lookup(tag_attributes(name, attributes), "name"@) {
                    Some(Some(v)) => Some(CustomState { name: Some(v), value: Seq::empty(), depth: 0, ..st }),
                    Some(None) => None,
                    None => Some(CustomState { name: None, value: Seq::empty(), depth: 0, ..st }),
                }
            } else if st.name is Some {
                Some(CustomState { depth: st.depth + 1, ..st })
            } else {
                Some(st)
            },
            EventView::Text(raw) => if st.depth > 0 {
                Some(CustomState { value: st.value + normalized_eols(raw), ..st })
            } else {
                Some(st)
            },
            EventView::GeneralRef(raw) => if st.depth > 0 {
                match decoded_reference(raw) {
                    Some(t) => Some(CustomState { value: st.value + t, ..st }),
                    None => None,
                }
            } else {
                Some(st)
            },
            EventView::CData(raw) => if st.depth > 0 {
                Some(CustomState { value: st.value + normalized_eols(raw), ..st })
            } else {
                Some(st)
            },
            EventView::End(name) => if local_name(name) == "property"@ {
                match st.name {
                    Some(n) => Some(
                        CustomState { name: None, value: Seq::empty(), entries: st.entries.push((n, st.value)), ..st },
                    ),
                    None => Some(st),
                }
            } else if st.depth > 0 {
                Some(CustomState { depth: (st.depth - 1) as nat, ..st })
            } else {
                Some(st)
            },
            _ => Some(st),
        },
    }
}

/// The state after the first `n` events.
pub open spec fn custom_fold(events: Seq<EventView>, n: int) -> Option<CustomState>
    decreases n,
{
    if n <= 0 || n > events.len() {
        Some(CustomState { name: None, value: Seq::empty(), depth: 0, entries: Seq::empty() })
    } else {
        custom_step(custom_fold(events, n - 1), events[n - 1])
    }
}

/// The properties that a custom properties part lists, in document order;
/// `None` when the part cannot be read.
pub open spec fn xml_custom_entries(xml: Seq<u8>) -> Option<Seq<(Seq<char>, Seq<char>)>> {
    match parsed_events(xml, false) {
        Some(events) => match custom_fold(events, events.len() as int) {
            Some(st) => Some(st.entries),
            None => None,
        },
        None => None,
    }
}

/// A map after inserting entries in order, later ones winning.
pub open spec fn inserted_all(m: Map<Seq<char>, Seq<char>>, entries: Seq<(Seq<char>, Seq<char>)>) -> Map<
    Seq<char>,
    Seq<char>,
>
    decreases entries.len(),
{
    if entries.len() == 0 {
        m
    } else {
        inserted_all(m, entries.drop_last()).insert(entries.last().0, entries.last().1)
    }
}

/// Inserting entries one by one merges them into the map, later ones
/// winning.
pub proof fn lemma_inserted_all_merges(m: Map<Seq<char>, Seq<char>>, entries: Seq<(Seq<char>, Seq<char>)>)
    ensures
        inserted_all(m, entries) == m.union_prefer_right(inserted_all(Map::empty(), entries)),
    decreases entries.len(),
{
    if entries.len() > 0 {
        lemma_inserted_all_merges(m, entries.drop_last());
        assert(inserted_all(m, entries) =~= m.union_prefer_right(inserted_all(Map::empty(), entries)));
    }
}

/// Inserting the entries that list a map builds that map.
pub proof fn lemma_inserted_all_lists(entries: Seq<(Seq<char>, Seq<char>)>, m: Map<Seq<char>, Seq<char>>)
    requires
        crate::text_map::lists_map(entries, m),
    ensures
        inserted_all(Map::empty(), entries) == m,
    decreases entries.len(),
{
    let keys = crate::text_map::entry_keys(entries);
    if entries.len() == 0 {
        assert forall|k: Seq<char>| !m.dom().contains(k) by {
            if m.dom().contains(k) {
                let i = choose|i: int| 0 <= i < entries.len() && #[trigger] entries[i].0 == k;
            }
        }
        assert(m =~= Map::empty());
    } else {
        let n = entries.len() - 1;
        let k = entries[n].0;
        let prefix = entries.drop_last();
        let rest = m.remove(k);
        assert(crate::text_map::entry_keys(prefix) =~= keys.drop_last());
        assert forall|i: int| 0 <= i < prefix.len() implies #[trigger] rest.dom().contains(prefix[i].0) && rest[prefix[i].0]
            == prefix[i].1 by {
            assert(keys[i] == prefix[i].0);
            assert(keys[n] == k);
            assert(crate::text::seq_less(keys[i], keys[n]));
            crate::text::lemma_seq_less_irreflexive(k);
            assert(m.dom().contains(entries[i].0));
        }
        assert forall|key: Seq<char>| #[trigger] rest.dom().contains(key) implies exists|i: int|
            0 <= i < prefix.len() && #[trigger] prefix[i].0 == key by {
            assert(m.dom().contains(key));
            let i = choose|i: int| 0 <= i < entries.len() && #[trigger] entries[i].0 == key;
            assert(i != n);
            assert(prefix[i].0 == key);
        }
        lemma_inserted_all_lists(prefix, rest);
        assert(m.dom().contains(entries[n].0));
        assert(inserted_all(Map::empty(), entries) =~= m);
    }
}

proof fn lemma_custom_failed(events: Seq<EventView>, n: int, m: int)
    requires
        0 < n <= m <= events.len(),
        custom_fold(events, n) is None,
    ensures
        custom_fold(events, m) is None,
    decreases m - n,
{
    if n < m {
        lemma_custom_failed(events, n, m - 1);
    }
}

proof fn lemma_view_insert(before: TextMap<String>, after: TextMap<String>, key: Seq<char>, value: String)
    requires
        after.as_map() == before.as_map().insert(key, value),
    ensures
        text_map_view(after) == text_map_view(before).insert(key, value@),
{
    assert(text_map_view(after) =~= text_map_view(before).insert(key, value@));
}

fn invalid_property(detail: &str) -> (e: OfficeError)
    ensures
        e is InvalidDocument,
{
    let mut message = String::from_str("Invalid custom metadata: ");
    message.append(detail);
    OfficeError::InvalidDocument(message)
}

/// Reads the properties of a custom properties part into the metadata,
/// later properties replacing earlier ones of the same name.
pub fn parse(xml: &[u8], metadata: &mut OfficeMetadata) -> (done: Result<(), OfficeError>)
    ensures
        match xml_custom_entries(xml@) {
            Some(entries) => done is Ok && final(metadata)@.custom == inserted_all(old(metadata)@.custom, entries)
                && final(metadata)@.core == old(metadata)@.core && final(metadata)@.extended == old(
                metadata,
            )@.extended,
            None => final(metadata)@ == old(metadata)@ && (done matches Err(e) && read_error(xml@, false, e)),
        },
{
    let events = read_events(xml, false)?;
    let ghost ev = event_views(events@);
    let mut name: Option<String> = None;
    let mut value = String::new();
    let mut depth: usize = 0;
    let mut entries: Vec<(String, String)> = Vec::new();
    let ghost mut listed: Seq<(Seq<char>, Seq<char>)> = Seq::empty();
    let mut k: usize = 0;
    while k < events.len()
        invariant
            k <= events.len(),
            ev == event_views(events@),
            parsed_events(xml@, false) == Some(ev),
            metadata@ == old(metadata)@,
            depth <= k,
            listed == entries@.map_values(|e: (String, String)| (e.0@, e.1@)),
            custom_fold(ev, k as int) == Some(
                CustomState {
                    name: match name {
                        Some(n) => Some(n@),
                        None => None,
                    },
                    value: value@,
                    depth: depth as nat,
                    entries: listed,
                },
            ),
        decreases events.len() - k,
    {
        match &events[k] {
            XmlEvent::Start(tag) => {
                let local = local_name_of(tag.name.as_str());
                if is_named(local.as_str(), "property") {
                    match normalized_attribute(tag.name.as_str(), tag.attributes.as_str(), "name") {
                        Some(Some(v)) => {
                            name = Some(v);
                        },
                        Some(None) => {
                            proof {
                                lemma_custom_failed(ev, k + 1, ev.len() as int);
                            }
                            return Err(invalid_property("malformed property name"));
                        },
                        None => {
                            name = None;
                        },
                    }
                    value = String::new();
                    depth = 0;
                } else if name.is_some() {
                    depth = depth + 1;
                }
            },
            XmlEvent::Text(raw) => {
                if depth > 0 {
                    let t = normalize_eols(raw.as_str());
                    value.append(t.as_str());
                }
            },
            XmlEvent::GeneralRef(raw) => {
                if depth > 0 {
                    match decode_reference(raw.as_str()) {
                        Ok(t) => {
                            value.append(t.as_str());
                        },
                        Err(detail) => {
                            proof {
                                lemma_custom_failed(ev, k + 1, ev.len() as int);
                            }
                            return Err(invalid_property(detail.as_str()));
                        },
                    }
                }
            },
            XmlEvent::CData(raw) => {
                if depth > 0 {
                    let t = normalize_eols(raw.as_str());
                    value.append(t.as_str());
                }
            },
            XmlEvent::End(end) => {
                let local = local_name_of(end.as_str());
                if is_named(local.as_str(), "property") {
                    if name.is_some() {
                        let n = name.take().unwrap();
                        let mut v = String::new();
                        core::mem::swap(&mut v, &mut value);
                        proof {
                            listed = listed.push((n@, v@));
                        }
                        entries.push((n, v));
                        assert(listed =~= entries@.map_values(|e: (String, String)| (e.0@, e.1@)));
                    }
                } else if depth > 0 {
                    depth = depth - 1;
                }
            },
            _ => {},
        }
        k = k + 1;
    }
    let mut i: usize = 0;
    assert(listed.take(0) =~= Seq::<(Seq<char>, Seq<char>)>::empty());
    while i < entries.len()
        invariant
            i <= entries.len(),
            listed == entries@.map_values(|e: (String, String)| (e.0@, e.1@)),
            metadata@.custom == inserted_all(old(metadata)@.custom, listed.take(i as int)),
            metadata@.core == old(metadata)@.core,
            metadata@.extended == old(metadata)@.extended,
        decreases entries.len() - i,
    {
        let ghost before = metadata.custom;
        let key = entries[i].0.as_str();
        let v = entries[i].1.clone();
        metadata.custom.insert(key, v);
        proof {
            lemma_view_insert(before, metadata.custom, key@, v);
            assert(listed.take(i + 1).drop_last() =~= listed.take(i as int));
            assert(listed.take(i + 1).last() == (key@, v@));
        }
        i = i + 1;
    }
    assert(listed.take(entries.len() as int) =~= listed);
    Ok(())
}

/// The attributes of the root of generated custom properties.
pub open spec fn custom_root_attributes() -> Seq<char> {
    " xmlns=\"http://schemas.openxmlformats.org/officeDocument/2006/custom-properties\" xmlns:vt=\"http://schemas.openxmlformats.org/officeDocument/2006/docPropsVTypes\""@
}

/// The attributes of a custom property with its format id, property id and
/// escaped name.
pub open spec fn property_attributes(pid: nat, name: Seq<char>) -> Seq<char> {
    " fmtid=\"{D5CDD505-2E9C-101B-9397-08002B2CF9AE}\" pid=\""@ + decimal(pid) + "\" name=\""@ + escaped_attribute(
        name,
    ) + "\""@
}

/// The events of one custom property holding a string value.
pub open spec fn property_events(pid: nat, name: Seq<char>, value: Seq<char>) -> Seq<EventView> {
    seq![EventView::Start("property"@, property_attributes(pid, name))] + text_element("vt:lpwstr"@, Seq::empty(), value)
        + seq![EventView::End("property"@)]
}

/// The events of a list of properties; the property at index `i` gets the
/// property id `i + 2`.
pub open spec fn property_list_events(entries: Seq<(Seq<char>, Seq<char>)>) -> Seq<EventView>
    decreases entries.len(),
{
    if entries.len() == 0 {
        Seq::empty()
    } else {
        property_list_events(entries.drop_last()) + property_events(
            (entries.len() + 1) as nat,
            entries.last().0,
            entries.last().1,
        )
    }
}

/// The events of generated custom properties: the declaration, the root,
/// the properties in increasing name order, and the root's end.
pub open spec fn custom_events(custom: Map<Seq<char>, Seq<char>>) -> Seq<EventView> {
    seq![standalone_declaration(), EventView::Start("Properties"@, custom_root_attributes())] + property_list_events(
        sorted_entries(custom),
    ) + seq![EventView::End("Properties"@)]
}

pub proof fn lemma_custom_entries(m: TextMap<String>)
    requires
        m.well_formed(),
    ensures
        sorted_entries(text_map_view(m)) == m.entries().map_values(|e: (Seq<char>, String)| (e.0, e.1@)),
        m.entries().len() == m.size(),
{
    m.lemma_shape();
    let listed = m.entries().map_values(|e: (Seq<char>, String)| (e.0, e.1@));
    let view = text_map_view(m);
    assert(crate::text_map::entry_keys(listed) =~= m.entries().map_values(|e: (Seq<char>, String)| e.0));
    assert forall|i: int| 0 <= i < listed.len() implies #[trigger] view.dom().contains(listed[i].0) && view[listed[i].0]
        == listed[i].1 by {
        assert(m.as_map().dom().contains(m.entries()[i].0));
    }
    assert forall|k: Seq<char>| #[trigger] view.dom().contains(k) implies exists|i: int|
        0 <= i < listed.len() && #[trigger] listed[i].0 == k by {
        assert(m.as_map().dom().contains(k));
        let i = choose|i: int| 0 <= i < m.entries().len() && #[trigger] m.entries()[i].0 == k;
        assert(listed[i].0 == k);
    }
    crate::text_map::lemma_sorted_entries(listed, view);
}

pub(crate) fn property_attribute_text(pid: u128, name: &str) -> (text: String)
    ensures
        text@ == property_attributes(pid as nat, name@),
{
    let mut text = String::from_str(" fmtid=\"{D5CDD505-2E9C-101B-9397-08002B2CF9AE}\" pid=\"");
    push_decimal(&mut text, pid);
    text.append("\" name=\"");
    let escaped = escape_attribute(name);
    text.append(escaped.as_str());
    text.append("\"");
    text
}

/// Generates the custom properties part.
pub fn create_custom_properties(metadata: &OfficeMetadata) -> (xml: Vec<u8>)
    ensures
        xml@ == encode_utf8(markup(custom_events(metadata@.custom))),
{
    let custom = &metadata.custom;
    proof {
        use_type_invariant(custom);
        lemma_custom_entries(*custom);
    }
    let ghost listed = custom.entries().map_values(|e: (Seq<char>, String)| (e.0, e.1@));
    let mut events: Vec<XmlEvent> = Vec::new();
    push_event(&mut events, declaration());
    push_event(
        &mut events,
        XmlEvent::Start(
            XmlTag {
                name: String::from_str("Properties"),
                attributes: String::from_str(
                    " xmlns=\"http://schemas.openxmlformats.org/officeDocument/2006/custom-properties\" xmlns:vt=\"http://schemas.openxmlformats.org/officeDocument/2006/docPropsVTypes\"",
                ),
            },
        ),
    );
    let ghost head = event_views(events@);
    let n = custom.len();
    let mut i: usize = 0;
    assert(listed.take(0) =~= Seq::<(Seq<char>, Seq<char>)>::empty());
    assert(head =~= head + property_list_events(listed.take(0)));
    while i < n
        invariant
            i <= n,
            n == custom.size(),
            listed.len() == n,
            listed == custom.entries().map_values(|e: (Seq<char>, String)| (e.0, e.1@)),
            event_views(events@) == head + property_list_events(listed.take(i as int)),
        decreases n - i,
    {
        let ghost before = event_views(events@);
        let key = custom.key_at(i);
        let value = custom.value_at(i);
        let attributes = property_attribute_text(i as u128 + 2, key.as_str());
        push_event(&mut events, XmlEvent::Start(XmlTag { name: String::from_str("property"), attributes }));
        push_text_element(&mut events, "vt:lpwstr", "", value.as_str());
        push_event(&mut events, XmlEvent::End(String::from_str("property")));
        proof {
            reveal_strlit("");
            assert(""@ =~= Seq::<char>::empty());
            assert(listed.take(i + 1).drop_last() =~= listed.take(i as int));
            assert(listed.take(i + 1).last() == listed[i as int]);
            assert(listed[i as int] == (key@, value@));
            assert(event_views(events@) =~= before + property_events((i + 2) as nat, key@, value@));
        }
        i = i + 1;
    }
    push_event(&mut events, XmlEvent::End(String::from_str("Properties")));
    proof {
        assert(listed.take(n as int) =~= listed);
        assert(event_views(events@) =~= custom_events(metadata@.custom));
    }
    events_bytes(&events)
}

/// Reads the custom properties part, when the package has one, into the
/// metadata.
pub fn read_from(package: &OoxmlPackage, metadata: &mut OfficeMetadata) -> (done: Result<(), OfficeError>)
    ensures
        ({
            let key = normalized_part_name(DOC_PROPS_CUSTOM@);
            if !package.contents().dom().contains(key) {
                done is Ok && final(metadata)@ == old(metadata)@
            } else {
                match xml_custom_entries(package.contents()[key]) {
                    Some(entries) => done is Ok && final(metadata)@.custom == inserted_all(
                        old(metadata)@.custom,
                        entries,
                    ) && final(metadata)@.core == old(metadata)@.core && final(metadata)@.extended == old(
                        metadata,
                    )@.extended,
                    None => final(metadata)@ == old(metadata)@ && (done matches Err(e) && read_error(
                        package.contents()[key],
                        false,
                        e,
                    )),
                }
            }
        }),
{
    let part = PartName::new(DOC_PROPS_CUSTOM);
    let xml = match package.read_part(&part) {
        Ok(xml) => xml,
        Err(_) => return Ok(()),
    };
    parse(xml, metadata)
}

/// The package contents after writing custom properties: the part written,
/// then registered in the content types, then in the root relationships.
/// `Err` carries the contents reached when a registration fails.
pub open spec fn custom_written(
    contents: Map<Seq<char>, Seq<u8>>,
    custom: Map<Seq<char>, Seq<char>>,
) -> Result<Map<Seq<char>, Seq<u8>>, Map<Seq<char>, Seq<u8>>> {
    let with_part = contents.insert(
        normalized_part_name(DOC_PROPS_CUSTOM@),
        encode_utf8(markup(custom_events(custom))),
    );
    match content_types_updated(with_part, CUSTOM_PART_NAME@, CUSTOM_PROPERTIES_CONTENT_TYPE@) {
        None => Err(with_part),
        Some(types) => {
            let with_types = with_part.insert(normalized_part_name(CONTENT_TYPES_PART@), types);
            match relationships_updated(
                with_types,
                CUSTOM_PROPERTIES_RELATIONSHIP_ID@,
                CUSTOM_PROPERTIES_RELATIONSHIP@,
                CUSTOM_PROPERTIES_TARGET@,
            ) {
                None => Err(with_types),
                Some(rels) => Ok(with_types.insert(normalized_part_name(ROOT_RELATIONSHIPS_PART@), rels)),
            }
        },
    }
}

/// Writes the custom properties part and registers it with the package.
pub fn write_to(package: &mut OoxmlPackage, metadata: &OfficeMetadata) -> (done: Result<(), OfficeError>)
    ensures
        match custom_written(old(package).contents(), metadata@.custom) {
            Ok(contents) => done is Ok && final(package).contents() == contents,
            Err(contents) => final(package).contents() == contents && (done matches Err(e) && (e is PartNotFound
                || e is InvalidDocument)),
        },
        final(package).origin() == old(package).origin(),
{
    let xml = create_custom_properties(metadata);
    package.write_part(PartName::new(DOC_PROPS_CUSTOM), xml);
    package.ensure_content_type_override(CUSTOM_PART_NAME, CUSTOM_PROPERTIES_CONTENT_TYPE)?;
    package.ensure_root_relationship(
        CUSTOM_PROPERTIES_RELATIONSHIP_ID,
        CUSTOM_PROPERTIES_RELATIONSHIP,
        CUSTOM_PROPERTIES_TARGET,
    )
}

/// After custom properties are written and registered, the package holds
/// the generated part, its content types name the part, and its root
/// relationships hold a relationship of the custom-properties type.
pub proof fn law_written_custom_properties_are_registered(
    contents: Map<Seq<char>, Seq<u8>>,
    custom: Map<Seq<char>, Seq<char>>,
)
    requires
        custom_written(contents, custom) is Ok,
    ensures
        ({
            let after = match custom_written(contents, custom) {
                Ok(c) => c,
                Err(c) => c,
            };
            let part = normalized_part_name(DOC_PROPS_CUSTOM@);
            let types = normalized_part_name(CONTENT_TYPES_PART@);
            let rels = normalized_part_name(ROOT_RELATIONSHIPS_PART@);
            &&& after.dom().contains(part) && after[part] == encode_utf8(markup(custom_events(custom)))
            &&& after.dom().contains(types) && valid_utf8(after[types]) && crate::text::first_occurrence(
                decode_utf8(after[types]),
                crate::registration::override_marker(CUSTOM_PART_NAME@),
                0,
            ) is Some
            &&& after.dom().contains(rels) && valid_utf8(after[rels]) && crate::text::first_occurrence(
                decode_utf8(after[rels]),
                crate::registration::relationship_marker(CUSTOM_PROPERTIES_RELATIONSHIP@),
                0,
            ) is Some
        }),
{
    reveal_strlit("docProps/custom.xml");
    reveal_strlit("[Content_Types].xml");
    reveal_strlit("_rels/.rels");
    reveal_strlit("<Override PartName=\"");
    reveal_strlit("PartName=\"");
    reveal_strlit("<Relationship Id=\"");
    reveal_strlit("\" Type=\"");
    reveal_strlit("/docProps/custom.xml");
    reveal_strlit("\" ContentType=\"");
    reveal_strlit("\"");
    reveal_strlit("\"/>");
    reveal_strlit("application/vnd.openxmlformats-officedocument.custom-properties+xml");
    reveal_strlit("rIdCustomProperties");
    reveal_strlit("http://schemas.openxmlformats.org/officeDocument/2006/relationships/custom-properties");
    reveal_strlit("\" Target=\"");
    let part = normalized_part_name(DOC_PROPS_CUSTOM@);
    let types = normalized_part_name(CONTENT_TYPES_PART@);
    let rels = normalized_part_name(ROOT_RELATIONSHIPS_PART@);
    assert(part != types && part != rels && types != rels) by {
        assert(part.len() != types.len() || part[0] != types[0]);
        assert(part.len() != rels.len() || part[0] != rels[0]);
        assert(types.len() != rels.len() || types[0] != rels[0]);
    }
    let with_part = contents.insert(part, encode_utf8(markup(custom_events(custom))));
    let override_text = crate::registration::override_element(
        CUSTOM_PART_NAME@,
        CUSTOM_PROPERTIES_CONTENT_TYPE@,
    );
    let marker = crate::registration::override_marker(CUSTOM_PART_NAME@);
    assert(override_text.subrange(10, 10 + marker.len() as int) =~= marker);
    lemma_bytes_hold_marker(with_part[types], "</Types>"@, override_text, marker, 10);
    let updated_types = content_types_updated(with_part, CUSTOM_PART_NAME@, CUSTOM_PROPERTIES_CONTENT_TYPE@).unwrap();
    let with_types = with_part.insert(types, updated_types);
    let relationship = crate::registration::relationship_element(
        CUSTOM_PROPERTIES_RELATIONSHIP_ID@,
        CUSTOM_PROPERTIES_RELATIONSHIP@,
        CUSTOM_PROPERTIES_TARGET@,
    );
    reveal_strlit("Type=\"");
    let rel_marker = crate::registration::relationship_marker(CUSTOM_PROPERTIES_RELATIONSHIP@);
    let offset: int = 18 + CUSTOM_PROPERTIES_RELATIONSHIP_ID@.len() as int + 2;
    assert(relationship.subrange(offset, offset + rel_marker.len()) =~= rel_marker);
    lemma_bytes_hold_marker(with_types[rels], "</Relationships>"@, relationship, rel_marker, offset);
}

} // verus!
