//! Content-type overrides and package relationships: registering a part so
//! that Office applications find it.
use crate::closing_tag::{
    bytes_inserted_before_closing_tag, insert_before_closing_tag, law_insertion_is_idempotent, missing_closing_tag_message,
};
use vstd::utf8::valid_utf8;
use crate::error::{invalid_document_with, OfficeError};
use crate::package::OoxmlPackage;
use crate::part::{normalized_part_name, PartName};
use vstd::prelude::*;

verus! {

/// The name of the package's content-types part.
pub const CONTENT_TYPES_PART: &'static str = "[Content_Types].xml";

/// The name of the package's root relationships part.
pub const ROOT_RELATIONSHIPS_PART: &'static str = "_rels/.rels";

/// The `Override` element that gives `part_name` its content type.
pub open spec fn override_element(part_name: Seq<char>, content_type: Seq<char>) -> Seq<char> {
    "<Override PartName=\""@ + part_name + "\" ContentType=\""@ + content_type + "\"/>"@
}

/// The attribute that shows a content-type override for `part_name` exists.
pub open spec fn override_marker(part_name: Seq<char>) -> Seq<char> {
    "PartName=\""@ + part_name + "\""@
}

/// The `Relationship` element of a root relationship.
pub open spec fn relationship_element(id: Seq<char>, relationship_type: Seq<char>, target: Seq<char>) -> Seq<char> {
    "<Relationship Id=\""@ + id + "\" Type=\""@ + relationship_type + "\" Target=\""@ + target + "\"/>"@
}

/// The attribute that shows a relationship of the type exists.
pub open spec fn relationship_marker(relationship_type: Seq<char>) -> Seq<char> {
    "Type=\""@ + relationship_type + "\""@
}

/// The content-types part of a package after registering `part_name`:
/// `None` when the package has none or it cannot be updated.
pub open spec fn content_types_updated(
    contents: Map<Seq<char>, Seq<u8>>,
    part_name: Seq<char>,
    content_type: Seq<char>,
) -> Option<Seq<u8>> {
    let key = normalized_part_name(CONTENT_TYPES_PART@);
    if contents.dom().contains(key) {
        bytes_inserted_before_closing_tag(
            contents[key],
            "</Types>"@,
            override_element(part_name, content_type),
            override_marker(part_name),
        )
    } else {
        None
    }
}

/// The root relationships part of a package after adding a relationship:
/// `None` when the package has none or it cannot be updated.
pub open spec fn relationships_updated(
    contents: Map<Seq<char>, Seq<u8>>,
    id: Seq<char>,
    relationship_type: Seq<char>,
    target: Seq<char>,
) -> Option<Seq<u8>> {
    let key = normalized_part_name(ROOT_RELATIONSHIPS_PART@);
    if contents.dom().contains(key) {
        bytes_inserted_before_closing_tag(
            contents[key],
            "</Relationships>"@,
            relationship_element(id, relationship_type, target),
            relationship_marker(relationship_type),
        )
    } else {
        None
    }
}

/// Adds a content-type override for `part_name` to the content-types XML,
/// unless one for that part is already there.
pub fn ensure_override(xml: &[u8], part_name: &str, content_type: &str) -> (updated: Result<Vec<u8>, OfficeError>)
    ensures
        match updated {
            Ok(bytes) => bytes_inserted_before_closing_tag(
                xml@,
                "</Types>"@,
                override_element(part_name@, content_type@),
                override_marker(part_name@),
            ) == Some(bytes@),
            Err(e) => bytes_inserted_before_closing_tag(
                xml@,
                "</Types>"@,
                override_element(part_name@, content_type@),
                override_marker(part_name@),
            ) is None && e is InvalidDocument && (valid_utf8(xml@) ==> invalid_document_with(
                e,
                missing_closing_tag_message("</Types>"@),
            )),
        },
{
    let mut addition = String::from_str("<Override PartName=\"");
    addition.append(part_name);
    addition.append("\" ContentType=\"");
    addition.append(content_type);
    addition.append("\"/>");
    let mut marker = String::from_str("PartName=\"");
    marker.append(part_name);
    marker.append("\"");
    insert_before_closing_tag(xml, "</Types>", addition.as_str(), marker.as_str())
}

/// Adds a root relationship to the relationships XML, unless the XML
/// already holds a relationship of its type.
pub fn ensure_relationship(
    xml: &[u8],
    id: &str,
    relationship_type: &str,
    target: &str,
) -> (updated: Result<Vec<u8>, OfficeError>)
    ensures
        match updated {
            Ok(bytes) => bytes_inserted_before_closing_tag(
                xml@,
                "</Relationships>"@,
                relationship_element(id@, relationship_type@, target@),
                relationship_marker(relationship_type@),
            ) == Some(bytes@),
            Err(e) => bytes_inserted_before_closing_tag(
                xml@,
                "</Relationships>"@,
                relationship_element(id@, relationship_type@, target@),
                relationship_marker(relationship_type@),
            ) is None && e is InvalidDocument && (valid_utf8(xml@) ==> invalid_document_with(
                e,
                missing_closing_tag_message("</Relationships>"@),
            )),
        },
{
    let mut addition = String::from_str("<Relationship Id=\"");
    addition.append(id);
    addition.append("\" Type=\"");
    addition.append(relationship_type);
    addition.append("\" Target=\"");
    addition.append(target);
    addition.append("\"/>");
    let mut marker = String::from_str("Type=\"");
    marker.append(relationship_type);
    marker.append("\"");
    insert_before_closing_tag(xml, "</Relationships>", addition.as_str(), marker.as_str())
}

/// Registering a content-type override in XML that it was just added to
/// leaves that XML as it is.
pub proof fn law_override_registration_is_idempotent(xml: Seq<u8>, part_name: Seq<char>, content_type: Seq<char>)
    requires
        bytes_inserted_before_closing_tag(
            xml,
            "</Types>"@,
            override_element(part_name, content_type),
            override_marker(part_name),
        ) is Some,
    ensures
        ({
            let once = bytes_inserted_before_closing_tag(
                xml,
                "</Types>"@,
                override_element(part_name, content_type),
                override_marker(part_name),
            ).unwrap();
            bytes_inserted_before_closing_tag(
                once,
                "</Types>"@,
                override_element(part_name, content_type),
                override_marker(part_name),
            ) == Some(once)
        }),
{
    reveal_strlit("<Override PartName=\"");
    reveal_strlit("PartName=\"");
    reveal_strlit("\" ContentType=\"");
    reveal_strlit("\"");
    reveal_strlit("\"/>");
    let element = override_element(part_name, content_type);
    let marker = override_marker(part_name);
    assert(element.subrange(10, 10 + marker.len() as int) =~= marker);
    law_insertion_is_idempotent(xml, "</Types>"@, element, marker, 10);
}

/// Registering a root relationship in XML that it was just added to leaves
/// that XML as it is.
pub proof fn law_relationship_registration_is_idempotent(
    xml: Seq<u8>,
    id: Seq<char>,
    relationship_type: Seq<char>,
    target: Seq<char>,
)
    requires
        bytes_inserted_before_closing_tag(
            xml,
            "</Relationships>"@,
            relationship_element(id, relationship_type, target),
            relationship_marker(relationship_type),
        ) is Some,
    ensures
        ({
            let once = bytes_inserted_before_closing_tag(
                xml,
                "</Relationships>"@,
                relationship_element(id, relationship_type, target),
                relationship_marker(relationship_type),
            ).unwrap();
            bytes_inserted_before_closing_tag(
                once,
                "</Relationships>"@,
                relationship_element(id, relationship_type, target),
                relationship_marker(relationship_type),
            ) == Some(once)
        }),
{
    reveal_strlit("<Relationship Id=\"");
    reveal_strlit("\" Type=\"");
    reveal_strlit("\" Target=\"");
    reveal_strlit("Type=\"");
    reveal_strlit("\"");
    reveal_strlit("\"/>");
    let element = relationship_element(id, relationship_type, target);
    let marker = relationship_marker(relationship_type);
    let at: int = 18 + id.len() as int + 2;
    assert(element.subrange(at, at + marker.len()) =~= marker);
    law_insertion_is_idempotent(xml, "</Relationships>"@, element, marker, at);
}

impl OoxmlPackage {
    /// Registers a content type for `part_name` in the content-types part.
    pub fn ensure_content_type_override(&mut self, part_name: &str, content_type: &str) -> (done: Result<(), OfficeError>)
        ensures
            match content_types_updated(old(self).contents(), part_name@, content_type@) {
                Some(updated) => done is Ok && final(self).contents() == old(self).contents().insert(
                    normalized_part_name(CONTENT_TYPES_PART@),
                    updated,
                ),
                None => final(self).contents() == old(self).contents() && (done matches Err(e) && if old(
                    self,
                ).contents().dom().contains(normalized_part_name(CONTENT_TYPES_PART@)) {
                    e is InvalidDocument
                } else {
                    e is PartNotFound
                }),
            },
            final(self).origin() == old(self).origin(),
    {
        let part = PartName::new(CONTENT_TYPES_PART);
        let updated = ensure_override(self.read_part(&part)?, part_name, content_type)?;
        self.write_part(part, updated);
        Ok(())
    }

    /// Registers a root relationship in the root relationships part.
    pub fn ensure_root_relationship(&mut self, id: &str, relationship_type: &str, target: &str) -> (done: Result<(), OfficeError>)
        ensures
            match relationships_updated(old(self).contents(), id@, relationship_type@, target@) {
                Some(updated) => done is Ok && final(self).contents() == old(self).contents().insert(
                    normalized_part_name(ROOT_RELATIONSHIPS_PART@),
                    updated,
                ),
                None => final(self).contents() == old(self).contents() && (done matches Err(e) && if old(
                    self,
                ).contents().dom().contains(normalized_part_name(ROOT_RELATIONSHIPS_PART@)) {
                    e is InvalidDocument
                } else {
                    e is PartNotFound
                }),
            },
            final(self).origin() == old(self).origin(),
    {
        let part = PartName::new(ROOT_RELATIONSHIPS_PART);
        let updated = ensure_relationship(self.read_part(&part)?, id, relationship_type, target)?;
        self.write_part(part, updated);
        Ok(())
    }
}

} // verus!
