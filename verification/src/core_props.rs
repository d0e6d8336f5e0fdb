//! Core document properties (`docProps/core.xml`).
use crate::elements::{elements_view, parse_text_elements, xml_elements, TextElement};
use crate::error::OfficeError;
use crate::keywords::{keywords_of, split_keywords, strings_view};
use crate::metadata::{CoreMetadata, CoreView, OfficeMetadata};
use crate::package::OoxmlPackage;
use crate::part::{normalized_part_name, PartName};
use crate::word_text::is_named;
use crate::xml::{event_views, markup, EventView, XmlEvent, XmlTag};
use crate::xml_reader::read_error;
use crate::xml_build::{
    declaration, events_bytes, optional_element, push_event, push_optional_element, push_text_element,
    standalone_declaration, text_element,
};
use vstd::prelude::*;
use vstd::string::StringExecFns;
use vstd::utf8::encode_utf8;

verus! {

/// The name of the core properties part.
pub const DOC_PROPS_CORE: &'static str = "docProps/core.xml";

/// Core properties after one element: known names set their property, with
/// keywords split at commas; other names are ignored.
pub open spec fn core_with(core: CoreView, name: Seq<char>, value: Seq<char>) -> CoreView {
    if name == "title"@ {
        CoreView { title: Some(value), ..core }
    } else if name == "subject"@ {
        CoreView { subject: Some(value), ..core }
    } else if name == "creator"@ {
        CoreView { creator: Some(value), ..core }
    } else if name == "lastModifiedBy"@ {
        CoreView { last_modified_by: Some(value), ..core }
    } else if name == "description"@ {
        CoreView { description: Some(value), ..core }
    } else if name == "keywords"@ {
        CoreView { keywords: keywords_of(value), ..core }
    } else if name == "category"@ {
        CoreView { category: Some(value), ..core }
    } else if name == "contentStatus"@ {
        CoreView { content_status: Some(value), ..core }
    } else if name == "contentType"@ {
        CoreView { content_type: Some(value), ..core }
    } else if name == "language"@ {
        CoreView { language: Some(value), ..core }
    } else if name == "created"@ {
        CoreView { created: Some(value), ..core }
    } else if name == "modified"@ {
        CoreView { modified: Some(value), ..core }
    } else if name == "lastPrinted"@ {
        CoreView { last_printed: Some(value), ..core }
    } else if name == "revision"@ {
        CoreView { revision: Some(value), ..core }
    } else if name == "identifier"@ {
        CoreView { identifier: Some(value), ..core }
    } else if name == "version"@ {
        CoreView { version: Some(value), ..core }
    } else {
        core
    }
}

/// Core properties after a list of elements, applied in order.
pub open spec fn core_applied(core: CoreView, elements: Seq<(Seq<char>, Seq<char>)>) -> CoreView
    decreases elements.len(),
{
    if elements.len() == 0 {
        core
    } else {
        core_with(core_applied(core, elements.drop_last()), elements.last().0, elements.last().1)
    }
}

/// Applies parsed core property elements to the core metadata.
pub fn apply_core_properties(elements: Vec<TextElement>, core: &mut CoreMetadata)
    ensures
        final(core)@ == core_applied(old(core)@, elements_view(elements@)),
{
    let ghost initial = core@;
    let ghost all = elements_view(elements@);
    let mut elements = elements;
    let mut rest: Vec<TextElement> = Vec::new();
    // Taken from the back, then applied from the front.
    while elements.len() > 0
        invariant
            elements_view(elements@) + elements_view(rest@).reverse() == all,
        decreases elements.len(),
    {
        let ghost before_e = elements@;
        let ghost before_r = rest@;
        let e = elements.pop().unwrap();
        rest.push(e);
        assert(elements_view(rest@).reverse() =~= seq![(e.name@, e.value@)] + elements_view(before_r).reverse());
        assert(elements_view(before_e) =~= elements_view(elements@).push((e.name@, e.value@)));
        assert(elements_view(elements@) + elements_view(rest@).reverse() =~= all);
    }
    assert(elements_view(elements@) =~= Seq::<(Seq<char>, Seq<char>)>::empty());
    assert(elements_view(rest@).reverse() =~= all);
    let ghost mut done: Seq<(Seq<char>, Seq<char>)> = Seq::empty();
    while rest.len() > 0
        invariant
            done + elements_view(rest@).reverse() == all,
            core@ == core_applied(initial, done),
        decreases rest.len(),
    {
        let ghost before_r = rest@;
        let TextElement { name, value } = rest.pop().unwrap();
        proof {
            assert(elements_view(before_r).reverse() =~= seq![(name@, value@)] + elements_view(rest@).reverse());
            assert(done.push((name@, value@)) + elements_view(rest@).reverse() =~= all);
            assert(done.push((name@, value@)).drop_last() =~= done);
            done = done.push((name@, value@));
        }
        if is_named(name.as_str(), "title") {
            core.title = Some(value);
        } else if is_named(name.as_str(), "subject") {
            core.subject = Some(value);
        } else if is_named(name.as_str(), "creator") {
            core.creator = Some(value);
        } else if is_named(name.as_str(), "lastModifiedBy") {
            core.last_modified_by = Some(value);
        } else if is_named(name.as_str(), "description") {
            core.description = Some(value);
        } else if is_named(name.as_str(), "keywords") {
            core.keywords = split_keywords(value.as_str());
        } else if is_named(name.as_str(), "category") {
            core.category = Some(value);
        } else if is_named(name.as_str(), "contentStatus") {
            core.content_status = Some(value);
        } else if is_named(name.as_str(), "contentType") {
            core.content_type = Some(value);
        } else if is_named(name.as_str(), "language") {
            core.language = Some(value);
        } else if is_named(name.as_str(), "created") {
            core.created = Some(value);
        } else if is_named(name.as_str(), "modified") {
            core.modified = Some(value);
        } else if is_named(name.as_str(), "lastPrinted") {
            core.last_printed = Some(value);
        } else if is_named(name.as_str(), "revision") {
            core.revision = Some(value);
        } else if is_named(name.as_str(), "identifier") {
            core.identifier = Some(value);
        } else if is_named(name.as_str(), "version") {
            core.version = Some(value);
        }
    }
    assert(done =~= all);
}

/// The attributes of the root of generated core properties.
pub open spec fn core_root_attributes() -> Seq<char> {
    " xmlns:cp=\"http://schemas.openxmlformats.org/package/2006/metadata/core-properties\" xmlns:dc=\"http://purl.org/dc/elements/1.1/\" xmlns:dcterms=\"http://purl.org/dc/terms/\" xmlns:dcmitype=\"http://purl.org/dc/dcmitype/\" xmlns:xsi=\"http://www.w3.org/2001/XMLSchema-instance\""@
}

/// The attributes of a W3C timestamp element.
pub open spec fn timestamp_attributes() -> Seq<char> {
    " xsi:type=\"dcterms:W3CDTF\""@
}

/// Texts joined with a separator between each two.
pub open spec fn joined_with(texts: Seq<Seq<char>>, separator: Seq<char>) -> Seq<char>
    decreases texts.len(),
{
    if texts.len() == 0 {
        Seq::empty()
    } else if texts.len() == 1 {
        texts[0]
    } else {
        joined_with(texts.drop_last(), separator) + separator + texts.last()
    }
}

/// Joins texts with a separator.
pub fn join_with(texts: &Vec<String>, separator: &str) -> (out: String)
    ensures
        out@ == joined_with(strings_view(texts@), separator@),
{
    let mut out = String::new();
    let mut i: usize = 0;
    while i < texts.len()
        invariant
            i <= texts.len(),
            out@ == joined_with(strings_view(texts@).take(i as int), separator@),
        decreases texts.len() - i,
    {
        if i > 0 {
            out.append(separator);
        }
        out.append(texts[i].as_str());
        assert(strings_view(texts@).take(i + 1).drop_last() =~= strings_view(texts@).take(i as int));
        i = i + 1;
    }
    assert(strings_view(texts@).take(texts.len() as int) =~= strings_view(texts@));
    out
}

/// The events of generated core properties: the declaration, the root with
/// its namespaces, one element for each set and non-empty property, in a
/// fixed order, with keywords joined by ", ", and the root's end.
pub open spec fn core_events(core: CoreView) -> Seq<EventView> {
    seq![standalone_declaration(), EventView::Start("cp:coreProperties"@, core_root_attributes())]
        + optional_element("dc:title"@, Seq::empty(), core.title)
        + optional_element("dc:subject"@, Seq::empty(), core.subject)
        + optional_element("dc:creator"@, Seq::empty(), core.creator)
        + optional_element("cp:lastModifiedBy"@, Seq::empty(), core.last_modified_by)
        + optional_element("dc:description"@, Seq::empty(), core.description)
        + (if core.keywords.len() > 0 {
            text_element("cp:keywords"@, Seq::empty(), joined_with(core.keywords, ", "@))
        } else {
            Seq::empty()
        })
        + optional_element("cp:category"@, Seq::empty(), core.category)
        + optional_element("cp:contentStatus"@, Seq::empty(), core.content_status)
        + optional_element("cp:contentType"@, Seq::empty(), core.content_type)
        + optional_element("dc:language"@, Seq::empty(), core.language)
        + optional_element("dcterms:created"@, timestamp_attributes(), core.created)
        + optional_element("dcterms:modified"@, timestamp_attributes(), core.modified)
        + optional_element("cp:lastPrinted"@, Seq::empty(), core.last_printed)
        + optional_element("cp:revision"@, Seq::empty(), core.revision)
        + optional_element("dc:identifier"@, Seq::empty(), core.identifier)
        + optional_element("cp:version"@, Seq::empty(), core.version)
        + seq![EventView::End("cp:coreProperties"@)]
}

/// Generates the core properties part.
pub fn create_core_properties(metadata: &OfficeMetadata) -> (xml: Vec<u8>)
    ensures
        xml@ == encode_utf8(markup(core_events(metadata@.core))),
{
    let core = &metadata.core;
    let mut events: Vec<XmlEvent> = Vec::new();
    push_event(&mut events, declaration());
    push_event(
        &mut events,
        XmlEvent::Start(
            XmlTag {
                name: String::from_str("cp:coreProperties"),
                attributes: String::from_str(
                    " xmlns:cp=\"http://schemas.openxmlformats.org/package/2006/metadata/core-properties\" xmlns:dc=\"http://purl.org/dc/elements/1.1/\" xmlns:dcterms=\"http://purl.org/dc/terms/\" xmlns:dcmitype=\"http://purl.org/dc/dcmitype/\" xmlns:xsi=\"http://www.w3.org/2001/XMLSchema-instance\"",
                ),
            },
        ),
    );
    push_optional_element(&mut events, "dc:title", "", &core.title);
    push_optional_element(&mut events, "dc:subject", "", &core.subject);
    push_optional_element(&mut events, "dc:creator", "", &core.creator);
    push_optional_element(&mut events, "cp:lastModifiedBy", "", &core.last_modified_by);
    push_optional_element(&mut events, "dc:description", "", &core.description);
    if core.keywords.len() > 0 {
        let keywords = join_with(&core.keywords, ", ");
        push_text_element(&mut events, "cp:keywords", "", keywords.as_str());
    }
    push_optional_element(&mut events, "cp:category", "", &core.category);
    push_optional_element(&mut events, "cp:contentStatus", "", &core.content_status);
    push_optional_element(&mut events, "cp:contentType", "", &core.content_type);
    push_optional_element(&mut events, "dc:language", "", &core.language);
    push_optional_element(&mut events, "dcterms:created", " xsi:type=\"dcterms:W3CDTF\"", &core.created);
    push_optional_element(&mut events, "dcterms:modified", " xsi:type=\"dcterms:W3CDTF\"", &core.modified);
    push_optional_element(&mut events, "cp:lastPrinted", "", &core.last_printed);
    push_optional_element(&mut events, "cp:revision", "", &core.revision);
    push_optional_element(&mut events, "dc:identifier", "", &core.identifier);
    push_optional_element(&mut events, "cp:version", "", &core.version);
    push_event(&mut events, XmlEvent::End(String::from_str("cp:coreProperties")));
    proof {
        reveal_strlit("");
        assert(""@ =~= Seq::<char>::empty());
        assert(event_views(events@) =~= core_events(metadata@.core));
    }
    events_bytes(&events)
}

/// Reads the core properties part, when the package has one, into the
/// metadata.
pub fn read_from(package: &OoxmlPackage, metadata: &mut OfficeMetadata) -> (done: Result<(), OfficeError>)
    ensures
        ({
            let key = normalized_part_name(DOC_PROPS_CORE@);
            if !package.contents().dom().contains(key) {
                done is Ok && final(metadata)@ == old(metadata)@
            } else {
                match xml_elements(package.contents()[key]) {
                    Some(elements) => done is Ok && final(metadata)@.core == core_applied(old(metadata)@.core, elements)
                        && final(metadata)@.extended == old(metadata)@.extended && final(metadata)@.custom == old(
                        metadata,
                    )@.custom,
                    None => final(metadata)@ == old(metadata)@ && (done matches Err(e) && read_error(
                        package.contents()[key],
                        false,
                        e,
                    )),
                }
            }
        }),
{
    let part = PartName::new(DOC_PROPS_CORE);
    let xml = match package.read_part(&part) {
        Ok(xml) => xml,
        Err(_) => return Ok(()),
    };
    let elements = parse_text_elements(xml)?;
    apply_core_properties(elements, &mut metadata.core);
    Ok(())
}

/// Writes the core properties part.
pub fn write_to(package: &mut OoxmlPackage, metadata: &OfficeMetadata)
    ensures
        final(package).contents() == old(package).contents().insert(
            normalized_part_name(DOC_PROPS_CORE@),
            encode_utf8(markup(core_events(metadata@.core))),
        ),
        final(package).origin() == old(package).origin(),
{
    let xml = create_core_properties(metadata);
    package.write_part(PartName::new(DOC_PROPS_CORE), xml);
}

} // verus!
