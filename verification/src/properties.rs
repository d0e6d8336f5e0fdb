//! Reading and writing all metadata of a package.
use crate::core_props::{core_applied, core_events, DOC_PROPS_CORE};
use crate::custom_props::{
    custom_events, custom_written, inserted_all, law_written_custom_properties_are_registered, xml_custom_entries,
    CUSTOM_PART_NAME, CUSTOM_PROPERTIES_CONTENT_TYPE, CUSTOM_PROPERTIES_RELATIONSHIP, CUSTOM_PROPERTIES_RELATIONSHIP_ID,
    CUSTOM_PROPERTIES_TARGET, DOC_PROPS_CUSTOM,
};
use crate::elements::xml_elements;
use crate::error::OfficeError;
use crate::extended_props::{extended_applied, extended_events, set_or, xml_vectors, DOC_PROPS_APP};
use crate::metadata::{empty_core, empty_extended, CoreView, ExtendedView, MetadataView, OfficeMetadata};
use crate::package::OoxmlPackage;
use crate::part::normalized_part_name;
use crate::registration::{
    content_types_updated, override_element, override_marker, relationship_element, relationship_marker,
    relationships_updated, CONTENT_TYPES_PART, ROOT_RELATIONSHIPS_PART,
};
use crate::closing_tag::lemma_present_marker_keeps_bytes;
use crate::text::first_occurrence;
use crate::core_laws::{law_core_properties_read_back, readable_core};
use crate::custom_laws::{law_custom_properties_read_back, readable_custom};
use crate::extended_laws::{law_extended_properties_read_back, readable_extended};
use crate::part::without_leading_slashes;
use crate::xml::markup;
use crate::xml_reader::{markup_reads_back_in_pieces, markup_reads_back_trimmed_in_pieces};
use crate::reader_pieces::references_resolve;
use vstd::prelude::*;
use vstd::utf8::{decode_utf8, encode_utf8, valid_utf8};

verus! {

/// The core properties that a package's parts give: none set when it has
/// no core part; `None` when that part cannot be read.
pub open spec fn package_core(contents: Map<Seq<char>, Seq<u8>>) -> Option<CoreView> {
    let key = normalized_part_name(DOC_PROPS_CORE@);
    if !contents.dom().contains(key) {
        Some(empty_core())
    } else {
        match xml_elements(contents[key]) {
            Some(elements) => Some(core_applied(empty_core(), elements)),
            None => None,
        }
    }
}

/// The extended properties that a package's parts give: none set when it
/// has no extended part; `None` when that part cannot be read.
pub open spec fn package_extended(contents: Map<Seq<char>, Seq<u8>>) -> Option<ExtendedView> {
    let key = normalized_part_name(DOC_PROPS_APP@);
    if !contents.dom().contains(key) {
        Some(empty_extended())
    } else {
        match (xml_elements(contents[key]), xml_vectors(contents[key])) {
            (Some(elements), Some((heading_pairs, titles))) => {
                let applied = extended_applied(empty_extended(), elements);
                Some(
                    ExtendedView {
                        heading_pairs: set_or(heading_pairs, applied.heading_pairs),
                        titles_of_parts: set_or(titles, applied.titles_of_parts),
                        ..applied
                    },
                )
            },
            _ => None,
        }
    }
}

/// The custom properties that a package's parts give: none when it has no
/// custom part; `None` when that part cannot be read.
pub open spec fn package_custom(contents: Map<Seq<char>, Seq<u8>>) -> Option<Map<Seq<char>, Seq<char>>> {
    let key = normalized_part_name(DOC_PROPS_CUSTOM@);
    if !contents.dom().contains(key) {
        Some(Map::empty())
    } else {
        match xml_custom_entries(contents[key]) {
            Some(entries) => Some(inserted_all(Map::empty(), entries)),
            None => None,
        }
    }
}

/// The metadata that a package's parts give; `None` when a metadata part
/// cannot be read.
pub open spec fn package_metadata(contents: Map<Seq<char>, Seq<u8>>) -> Option<MetadataView> {
    match (package_core(contents), package_extended(contents), package_custom(contents)) {
        (Some(core), Some(extended), Some(custom)) => Some(MetadataView { core, extended, custom }),
        _ => None,
    }
}

/// Reads the core, extended and custom properties of a package.
pub fn read_metadata(package: &OoxmlPackage) -> (metadata: Result<OfficeMetadata, OfficeError>)
    ensures
        match package_metadata(package.contents()) {
            Some(view) => metadata matches Ok(m) && m@ == view,
            None => metadata matches Err(e) && (e is Xml || e is InvalidDocument),
        },
{
    let mut metadata = OfficeMetadata::new();
    crate::core_props::read_from(package, &mut metadata)?;
    crate::extended_props::read_from(package, &mut metadata)?;
    crate::custom_props::read_from(package, &mut metadata)?;
    proof {
        assert(metadata@.custom =~= package_custom(package.contents()).unwrap());
    }
    Ok(metadata)
}

/// The package contents after writing metadata: the core and extended parts
/// written, then the custom part written and registered. `Err` carries the
/// contents reached when a registration fails.
pub open spec fn metadata_written(
    contents: Map<Seq<char>, Seq<u8>>,
    metadata: MetadataView,
) -> Result<Map<Seq<char>, Seq<u8>>, Map<Seq<char>, Seq<u8>>> {
    custom_written(
        contents.insert(normalized_part_name(DOC_PROPS_CORE@), encode_utf8(markup(core_events(metadata.core)))).insert(
            normalized_part_name(DOC_PROPS_APP@),
            encode_utf8(markup(extended_events(metadata.extended))),
        ),
        metadata.custom,
    )
}

/// Writes the core, extended and custom properties into a package.
pub fn write_metadata(package: &mut OoxmlPackage, metadata: &OfficeMetadata) -> (done: Result<(), OfficeError>)
    ensures
        match metadata_written(old(package).contents(), metadata@) {
            Ok(contents) => done is Ok && final(package).contents() == contents,
            Err(contents) => final(package).contents() == contents && (done matches Err(e) && (e is PartNotFound
                || e is InvalidDocument)),
        },
        final(package).origin() == old(package).origin(),
{
    crate::core_props::write_to(package, metadata);
    crate::extended_props::write_to(package, metadata);
    crate::custom_props::write_to(package, metadata)
}

/// The parts that writing metadata may change.
pub open spec fn metadata_part(key: Seq<char>) -> bool {
    key == normalized_part_name(DOC_PROPS_CORE@) || key == normalized_part_name(DOC_PROPS_APP@) || key
        == normalized_part_name(DOC_PROPS_CUSTOM@) || key == normalized_part_name(CONTENT_TYPES_PART@) || key
        == normalized_part_name(ROOT_RELATIONSHIPS_PART@)
}

/// Writing metadata, whether it succeeds or not, leaves every part other
/// than the three property parts, the content types and the root
/// relationships as it was, and removes none.
pub proof fn law_metadata_write_keeps_other_parts(
    contents: Map<Seq<char>, Seq<u8>>,
    metadata: MetadataView,
    key: Seq<char>,
)
    ensures
        ({
            let after = match metadata_written(contents, metadata) {
                Ok(c) => c,
                Err(c) => c,
            };
            &&& contents.dom().subset_of(after.dom())
            &&& (!metadata_part(key) && contents.dom().contains(key) ==> after[key] == contents[key])
            &&& (!metadata_part(key) ==> (after.dom().contains(key) <==> contents.dom().contains(key)))
        }),
{
}

/// After metadata is written successfully, the custom properties part holds
/// the generated custom properties and is registered in the content types
/// and the root relationships.
pub proof fn law_metadata_write_registers_custom_properties(contents: Map<Seq<char>, Seq<u8>>, metadata: MetadataView)
    requires
        metadata_written(contents, metadata) is Ok,
    ensures
        ({
            let after = match metadata_written(contents, metadata) {
                Ok(c) => c,
                Err(c) => c,
            };
            let part = normalized_part_name(DOC_PROPS_CUSTOM@);
            let types = normalized_part_name(CONTENT_TYPES_PART@);
            let rels = normalized_part_name(ROOT_RELATIONSHIPS_PART@);
            &&& after.dom().contains(part) && after[part] == encode_utf8(markup(custom_events(metadata.custom)))
            &&& after.dom().contains(types) && valid_utf8(after[types]) && first_occurrence(
                decode_utf8(after[types]),
                override_marker(CUSTOM_PART_NAME@),
                0,
            ) is Some
            &&& after.dom().contains(rels) && valid_utf8(after[rels]) && first_occurrence(
                decode_utf8(after[rels]),
                relationship_marker(CUSTOM_PROPERTIES_RELATIONSHIP@),
                0,
            ) is Some
        }),
{
    law_written_custom_properties_are_registered(
        contents.insert(normalized_part_name(DOC_PROPS_CORE@), encode_utf8(markup(core_events(metadata.core)))).insert(
            normalized_part_name(DOC_PROPS_APP@),
            encode_utf8(markup(extended_events(metadata.extended))),
        ),
        metadata.custom,
    );
}


proof fn lemma_property_keys_distinct()
    ensures
        normalized_part_name(DOC_PROPS_CORE@) != normalized_part_name(DOC_PROPS_APP@),
        normalized_part_name(DOC_PROPS_CORE@) != normalized_part_name(DOC_PROPS_CUSTOM@),
        normalized_part_name(DOC_PROPS_CORE@) != normalized_part_name(CONTENT_TYPES_PART@),
        normalized_part_name(DOC_PROPS_CORE@) != normalized_part_name(ROOT_RELATIONSHIPS_PART@),
        normalized_part_name(DOC_PROPS_APP@) != normalized_part_name(DOC_PROPS_CUSTOM@),
        normalized_part_name(DOC_PROPS_APP@) != normalized_part_name(CONTENT_TYPES_PART@),
        normalized_part_name(DOC_PROPS_APP@) != normalized_part_name(ROOT_RELATIONSHIPS_PART@),
        normalized_part_name(DOC_PROPS_CUSTOM@) != normalized_part_name(CONTENT_TYPES_PART@),
        normalized_part_name(DOC_PROPS_CUSTOM@) != normalized_part_name(ROOT_RELATIONSHIPS_PART@),
{
    reveal_strlit("docProps/core.xml");
    reveal_strlit("docProps/app.xml");
    reveal_strlit("docProps/custom.xml");
    reveal_strlit("[Content_Types].xml");
    reveal_strlit("_rels/.rels");
    assert(without_leading_slashes(DOC_PROPS_CORE@) == DOC_PROPS_CORE@);
    assert(without_leading_slashes(DOC_PROPS_APP@) == DOC_PROPS_APP@);
    assert(without_leading_slashes(DOC_PROPS_CUSTOM@) == DOC_PROPS_CUSTOM@);
    assert(without_leading_slashes(CONTENT_TYPES_PART@) == CONTENT_TYPES_PART@);
    assert(without_leading_slashes(ROOT_RELATIONSHIPS_PART@) == ROOT_RELATIONSHIPS_PART@);
    assert(normalized_part_name(DOC_PROPS_CORE@).len() == 17);
    assert(normalized_part_name(DOC_PROPS_APP@).len() == 16);
    assert(normalized_part_name(DOC_PROPS_CUSTOM@).len() == 19);
    assert(normalized_part_name(CONTENT_TYPES_PART@).len() == 19);
    assert(normalized_part_name(ROOT_RELATIONSHIPS_PART@).len() == 11);
    assert(normalized_part_name(DOC_PROPS_CUSTOM@)[0] == 'd');
    assert(normalized_part_name(CONTENT_TYPES_PART@)[0] == '[');
}

/// Written metadata reads back as it was written, whether the
/// registration of the custom properties succeeds or not: where the values
/// read back from the generated events (set texts not empty; keywords
/// without commas or outer white space; heading pair names and titles
/// plain, not empty and without white space at either end), the XML reader
/// reads the generated markup back as the events written with each text
/// split at its references (and, where it trims text, each piece trimmed),
/// resolving those references gives back the characters that escaping
/// replaced, and the reader gives back each custom property's name from its
/// tag.
pub proof fn law_metadata_read_after_write(contents: Map<Seq<char>, Seq<u8>>, metadata: MetadataView)
    requires
        readable_core(metadata.core),
        readable_extended(metadata.extended),
        readable_custom(metadata.custom),
        references_resolve(),
        markup_reads_back_in_pieces(core_events(metadata.core)),
        markup_reads_back_in_pieces(extended_events(metadata.extended)),
        markup_reads_back_trimmed_in_pieces(extended_events(metadata.extended)),
        markup_reads_back_in_pieces(custom_events(metadata.custom)),
    ensures
        ({
            let after = match metadata_written(contents, metadata) {
                Ok(c) => c,
                Err(c) => c,
            };
            package_metadata(after) == Some(metadata)
        }),
{
    lemma_property_keys_distinct();
    law_core_properties_read_back(metadata.core);
    law_extended_properties_read_back(metadata.extended);
    law_custom_properties_read_back(metadata.custom);
}

/// Writing the same metadata a second time changes nothing: the property
/// parts are written with the same bytes, and the content types and root
/// relationships already register the custom properties, so neither gets a
/// second entry.
pub proof fn law_metadata_write_is_idempotent(contents: Map<Seq<char>, Seq<u8>>, metadata: MetadataView)
    requires
        metadata_written(contents, metadata) is Ok,
    ensures
        ({
            let after = match metadata_written(contents, metadata) {
                Ok(c) => c,
                Err(c) => c,
            };
            metadata_written(after, metadata) == Ok::<Map<Seq<char>, Seq<u8>>, Map<Seq<char>, Seq<u8>>>(after)
        }),
{
    let after = match metadata_written(contents, metadata) {
        Ok(c) => c,
        Err(c) => c,
    };
    lemma_property_keys_distinct();
    law_metadata_write_registers_custom_properties(contents, metadata);
    let core = normalized_part_name(DOC_PROPS_CORE@);
    let app = normalized_part_name(DOC_PROPS_APP@);
    let custom = normalized_part_name(DOC_PROPS_CUSTOM@);
    let types = normalized_part_name(CONTENT_TYPES_PART@);
    let rels = normalized_part_name(ROOT_RELATIONSHIPS_PART@);
    let with_core = contents.insert(core, encode_utf8(markup(core_events(metadata.core))));
    let with_app = with_core.insert(app, encode_utf8(markup(extended_events(metadata.extended))));
    let with_part = with_app.insert(custom, encode_utf8(markup(custom_events(metadata.custom))));
    let first_types = content_types_updated(with_part, CUSTOM_PART_NAME@, CUSTOM_PROPERTIES_CONTENT_TYPE@).unwrap();
    let first_with_types = with_part.insert(types, first_types);
    let first_rels = relationships_updated(
        first_with_types,
        CUSTOM_PROPERTIES_RELATIONSHIP_ID@,
        CUSTOM_PROPERTIES_RELATIONSHIP@,
        CUSTOM_PROPERTIES_TARGET@,
    ).unwrap();
    assert(after == first_with_types.insert(rels, first_rels));
    let again_core = after.insert(core, encode_utf8(markup(core_events(metadata.core))));
    let again_app = again_core.insert(app, encode_utf8(markup(extended_events(metadata.extended))));
    let again_part = again_app.insert(custom, encode_utf8(markup(custom_events(metadata.custom))));
    assert(again_part =~= after);
    lemma_present_marker_keeps_bytes(
        after[types],
        "</Types>"@,
        override_element(CUSTOM_PART_NAME@, CUSTOM_PROPERTIES_CONTENT_TYPE@),
        override_marker(CUSTOM_PART_NAME@),
    );
    assert(after.insert(types, after[types]) =~= after);
    lemma_present_marker_keeps_bytes(
        after[rels],
        "</Relationships>"@,
        relationship_element(
            CUSTOM_PROPERTIES_RELATIONSHIP_ID@,
            CUSTOM_PROPERTIES_RELATIONSHIP@,
            CUSTOM_PROPERTIES_TARGET@,
        ),
        relationship_marker(CUSTOM_PROPERTIES_RELATIONSHIP@),
    );
    assert(after.insert(rels, after[rels]) =~= after);
}

} // verus!
