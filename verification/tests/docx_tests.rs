use aigov::ai_policy::AiPolicy;
use aigov::docx::{AiPolicyDocument, DocxDocument, OfficeDocument, OoxmlDocument, Severity};
use aigov::metadata::OfficeMetadata;
use aigov::part::PartName;
use aigov::replacement::{CaseMatching, ReplaceOptions};
use std::io::Write;

fn zip_bytes(entries: &[(&str, &[u8])]) -> Vec<u8> {
    let mut buffer = std::io::Cursor::new(Vec::new());
    {
        let mut archive = zip::ZipWriter::new(&mut buffer);
        let options = zip::write::SimpleFileOptions::default();
        for (name, content) in entries {
            if name.ends_with('/') {
                archive.add_directory(*name, options).unwrap();
            } else {
                archive.start_file(*name, options).unwrap();
                archive.write_all(content).unwrap();
            }
        }
        archive.finish().unwrap();
    }
    buffer.into_inner()
}

fn docx_document(parts: &[(&str, &[u8])]) -> DocxDocument {
    DocxDocument::from_bytes(&zip_bytes(parts)).unwrap()
}

const MINIMAL_DOCUMENT: &[u8] = br#"<?xml version="1.0" encoding="UTF-8"?><w:document xmlns:w="http://schemas.openxmlformats.org/wordprocessingml/2006/main"><w:body><w:p><w:r><w:t>Hello world</w:t></w:r></w:p></w:body></w:document>"#;

fn minimal_docx() -> DocxDocument {
    docx_document(&[
        (
            "[Content_Types].xml",
            br#"<?xml version="1.0" encoding="UTF-8"?><Types xmlns="http://schemas.openxmlformats.org/package/2006/content-types"/>"#,
        ),
        (
            "_rels/.rels",
            br#"<?xml version="1.0" encoding="UTF-8"?><Relationships xmlns="http://schemas.openxmlformats.org/package/2006/relationships"/>"#,
        ),
        ("word/document.xml", MINIMAL_DOCUMENT),
    ])
}

fn document_text(document: &DocxDocument) -> String {
    String::from_utf8(document.document_xml().unwrap().to_vec()).unwrap()
}

#[test]
fn validates_complete_minimal_docx() {
    let document = minimal_docx();

    let issues = document.validate().unwrap();

    assert!(issues.is_empty());
}

#[test]
fn validates_missing_required_parts() {
    let document = docx_document(&[("word/document.xml", br#"<w:office>Hello world</w:office>"#)]);

    let issues = document.validate().unwrap();

    assert_eq!(2, issues.len());
}

#[test]
fn reads_document_xml() {
    let document = minimal_docx();

    let xml = document.document_xml().unwrap();

    assert_eq!(MINIMAL_DOCUMENT, xml);
}

#[test]
fn reads_optional_styles_xml_when_present() {
    let document = docx_document(&[
        ("[Content_Types].xml", br#"<Types />"#),
        ("_rels/.rels", br#"<Relationships />"#),
        ("word/office.xml", br#"<w:office>Hello world</w:office>"#),
        ("word/styles.xml", br#"<w:styles />"#),
    ]);

    let styles = document.styles_xml().unwrap();

    assert_eq!(Some(br#"<w:styles />"#.as_slice()), styles);
}

#[test]
fn returns_none_when_styles_xml_is_missing() {
    let document = minimal_docx();

    let styles = document.styles_xml().unwrap();

    assert!(styles.is_none());
}

#[test]
fn replaces_text_in_document_xml_case_sensitive() {
    let mut document = minimal_docx();

    let options = ReplaceOptions::default();
    let count = document.replace_text("Hello", "Goodbye", options).unwrap();

    assert_eq!(1, count);

    let xml = document_text(&document);

    assert!(xml.contains("Goodbye world"));
    assert!(!xml.contains("Hello world"));
}

#[test]
fn replaces_text_in_document_xml_case_insensitive() {
    let mut document = minimal_docx();

    let options = ReplaceOptions { case_matching: CaseMatching::UnicodeInsensitive };
    let count = document.replace_text("hello", "Goodbye", options).unwrap();

    assert_eq!(1, count);

    let xml = document_text(&document);

    assert_eq!(
        xml,
        r#"<?xml version="1.0" encoding="UTF-8"?><w:document xmlns:w="http://schemas.openxmlformats.org/wordprocessingml/2006/main"><w:body><w:p><w:r><w:t>Goodbye world</w:t></w:r></w:p></w:body></w:document>"#
    );
}

#[test]
fn replaces_text_across_word_runs_without_touching_markup() {
    let mut document = docx_document(&[
        ("[Content_Types].xml", br#"<Types />"#),
        ("_rels/.rels", br#"<Relationships />"#),
        (
            "word/document.xml",
            br#"<w:document xmlns:w="http://schemas.openxmlformats.org/wordprocessingml/2006/main"><w:body><w:p w:rsidR="Hallo"><w:r><w:t>H</w:t></w:r><w:r><w:t>allo</w:t></w:r></w:p></w:body></w:document>"#,
        ),
    ]);

    let count = document.replace_text("Hallo", "Goodbye & <all>", ReplaceOptions::default()).unwrap();

    assert_eq!(1, count);
    let xml = document_text(&document);
    assert!(xml.contains(r#"w:rsidR="Hallo""#));
    assert!(xml.contains("Goodbye &amp; &lt;all&gt;"));
    assert!(!xml.contains(">H<"));
    assert!(!xml.contains(">allo<"));
}

#[test]
fn does_not_update_document_xml_when_text_is_missing() {
    let mut document = minimal_docx();

    let options = ReplaceOptions::default();
    let count = document.replace_text("Missing", "Replacement", options).unwrap();

    assert_eq!(0, count);

    let xml = document_text(&document);

    assert!(xml.contains("Hello world"));
}

#[test]
fn writes_and_registers_custom_metadata() {
    let mut document = minimal_docx();
    let mut metadata = OfficeMetadata::default();
    metadata.custom.insert("Client", String::from("Acme & Co"));

    document.set_metadata(&metadata).unwrap();

    let custom = String::from_utf8(document.read_part(&PartName::from("docProps/custom.xml")).unwrap().to_vec()).unwrap();
    let content_types =
        String::from_utf8(document.read_part(&PartName::from("[Content_Types].xml")).unwrap().to_vec()).unwrap();
    let relationships = String::from_utf8(document.read_part(&PartName::from("_rels/.rels")).unwrap().to_vec()).unwrap();

    assert!(custom.contains("Acme &amp; Co"));
    assert!(content_types.contains("/docProps/custom.xml"));
    assert!(relationships.contains("custom-properties"));
}

#[test]
fn injects_and_reads_ai_policy() {
    let mut document = minimal_docx();
    let policy = AiPolicy {
        id: "internal-use".into(),
        human_review_required: true,
        training_allowed: false,
        attribution_required: true,
        owner: Some("legal".into()),
    };

    document.inject_policy(&policy).unwrap();

    let read = document.policy().unwrap().unwrap();
    assert_eq!(format!("{:?}", read), format!("{:?}", policy));
}

#[test]
fn manages_hidden_policy_prompt() {
    let mut document = minimal_docx();
    let policy = AiPolicy {
        id: "internal-use".into(),
        human_review_required: true,
        training_allowed: false,
        attribution_required: true,
        owner: Some("legal".into()),
    };

    document.inject_policy(&policy).unwrap();

    let xml = document_text(&document);
    assert!(xml.contains("w:vanish"));
    assert!(xml.contains("aigov:policy:"));
    assert!(document.has_policy().unwrap());

    let updated = AiPolicy { id: "public-use".into(), ..policy };
    document.update_policy(&updated).unwrap();

    let xml = document_text(&document);
    assert!(!xml.contains("Policy ID: internal-use"));
    assert!(xml.contains("Policy ID: public-use"));
    assert!(document.remove_policy().unwrap());
    assert!(!document.has_policy().unwrap());
    let xml = document_text(&document);
    assert!(xml.contains("Hello world"));
    assert!(!xml.contains("aigov:policy:"));
    assert!(!document.remove_policy().unwrap());
    assert!(document.update_policy(&updated).is_err());
}

#[test]
fn reinjects_policy_before_section_properties() {
    let mut document = minimal_docx();
    document
        .write_part(
            PartName::from("word/document.xml"),
            br#"<w:document xmlns:w="http://schemas.openxmlformats.org/wordprocessingml/2006/main"><w:body><w:p><w:r><w:t>Hello world</w:t></w:r></w:p><w:sectPr/></w:body></w:document>"#.to_vec(),
        )
        .unwrap();
    let policy = AiPolicy::default();

    document.inject_policy(&policy).unwrap();
    let first_injection = document.document_xml().unwrap().to_vec();
    assert!(document.remove_policy().unwrap());
    document.inject_policy(&policy).unwrap();

    assert_eq!(first_injection, document.document_xml().unwrap());
}

#[test]
fn validation_reports_each_missing_part_as_an_error() {
    let document = docx_document(&[("word/styles.xml", b"<w:styles/>")]);

    let issues = document.validate().unwrap();

    assert_eq!(3, issues.len());
    assert!(issues.iter().all(|issue| issue.severity == Severity::Error));
    assert_eq!(issues[0].part.as_ref().unwrap().as_str(), "[Content_Types].xml");
    assert_eq!(issues[1].part.as_ref().unwrap().as_str(), "_rels/.rels");
    assert_eq!(issues[2].part.as_ref().unwrap().as_str(), "word/document.xml");
    assert_eq!(issues[0].message, "Required DOCX part is missing");
}

#[test]
fn policy_is_injected_before_body_section_properties() {
    let mut document = minimal_docx();
    document
        .write_part(
            PartName::from("word/document.xml"),
            br#"<w:document><w:body><w:p><w:r><w:t>Hi</w:t></w:r></w:p><w:sectPr/></w:body></w:document>"#.to_vec(),
        )
        .unwrap();

    document.inject_policy(&AiPolicy::default()).unwrap();

    let xml = document_text(&document);
    let policy_at = xml.find("aigov:policy:").unwrap();
    let section_at = xml.find("<w:sectPr/>").unwrap();
    assert!(policy_at < section_at);
    assert!(xml.starts_with("<w:document><w:body><w:p><w:r><w:t>Hi</w:t></w:r></w:p><w:p><w:r><w:rPr><w:vanish/></w:rPr><w:t>"));
}

#[test]
fn injecting_a_policy_without_a_body_is_an_error() {
    let mut document = minimal_docx();
    document.write_part(PartName::from("word/document.xml"), b"<w:document/>".to_vec()).unwrap();

    let error = document.inject_policy(&AiPolicy::default()).unwrap_err();

    assert!(matches!(error, aigov::error::OfficeError::InvalidDocument(_)));
}

#[test]
fn reading_a_policy_from_a_document_without_one_gives_none() {
    let document = minimal_docx();

    assert!(document.policy().unwrap().is_none());
    assert!(!document.has_policy().unwrap());
    assert!(document.validate_policy().is_err());
}

#[test]
fn a_missing_main_part_makes_replacement_fail() {
    let mut document = docx_document(&[("word/styles.xml", b"<w:styles/>")]);

    let error = document.replace_text("a", "b", ReplaceOptions::default()).unwrap_err();

    assert!(matches!(error, aigov::error::OfficeError::PartNotFound(_)));
}

#[test]
fn a_policy_is_found_before_malformed_markup_later_in_the_document() {
    let document = docx_document(&[(
        "word/document.xml",
        b"<w:document><w:body><w:p><w:r><w:t>aigov:policy:Policy ID: x\nHuman review required: no\nTraining allowed: no\nAttribution required: no\n</w:t></w:r></w:p></w:wrong></w:body></w:document>",
    )]);

    assert!(document.has_policy().unwrap());
    assert_eq!(document.policy().unwrap().unwrap().id, "x");
}

#[test]
fn malformed_markup_before_any_policy_is_an_error() {
    let document = docx_document(&[("word/document.xml", b"<w:document><w:body></w:wrong></w:body></w:document>")]);

    assert!(document.has_policy().is_err());
}

#[test]
fn policy_operations_on_a_document_without_a_main_part_name_the_missing_part() {
    let mut document = docx_document(&[("word/styles.xml", b"<w:styles/>")]);

    assert!(matches!(document.policy().unwrap_err(), aigov::error::OfficeError::PartNotFound(_)));
    assert!(matches!(document.has_policy().unwrap_err(), aigov::error::OfficeError::PartNotFound(_)));
    assert!(matches!(document.remove_policy().unwrap_err(), aigov::error::OfficeError::PartNotFound(_)));
}

#[test]
fn unreadable_main_part_markup_is_an_xml_error() {
    let mut document = docx_document(&[("word/document.xml", b"<w:document><w:body></w:wrong></w:document>")]);

    assert!(matches!(document.remove_policy().unwrap_err(), aigov::error::OfficeError::Xml(_)));
    assert!(matches!(
        document.replace_text("a", "b", ReplaceOptions::default()).unwrap_err(),
        aigov::error::OfficeError::Xml(_)
    ));
}

fn sample_policy() -> AiPolicy {
    AiPolicy {
        id: "internal-use".into(),
        human_review_required: true,
        training_allowed: false,
        attribution_required: true,
        owner: Some("legal".into()),
    }
}

#[test]
fn a_policy_needs_a_document_body() {
    let xml = br#"<w:document><w:p><w:r><w:t>no body</w:t></w:r></w:p></w:document>"#;
    match aigov::policy_markup::write_hidden_policy(xml, &sample_policy()) {
        Err(aigov::error::OfficeError::InvalidDocument(message)) => {
            assert_eq!(message, "Word document has no body element")
        }
        other => panic!("unexpected result: {:?}", other),
    }
}

#[test]
fn an_open_paragraph_stops_a_policy_rewrite() {
    let xml = br#"<w:body><w:p><w:r><w:t>open</w:t></w:r>"#;
    match aigov::policy_markup::rewrite_hidden_policy(xml, None) {
        Err(aigov::error::OfficeError::InvalidAiPolicy(message)) => assert_eq!(message, "unterminated Word paragraph"),
        other => panic!("unexpected result: {:?}", other),
    }
}

#[test]
fn writing_the_same_metadata_twice_registers_it_once() {
    let mut document = minimal_docx();
    let mut metadata = OfficeMetadata::default();
    metadata.core.title = Some("A & B".into());
    metadata.custom.insert("Client", String::from("Acme & Co"));

    document.set_metadata(&metadata).unwrap();
    let types = document.read_part(&PartName::from("[Content_Types].xml")).unwrap().to_vec();
    let rels = document.read_part(&PartName::from("_rels/.rels")).unwrap().to_vec();
    document.set_metadata(&metadata).unwrap();

    assert_eq!(document.read_part(&PartName::from("[Content_Types].xml")).unwrap().to_vec(), types);
    assert_eq!(document.read_part(&PartName::from("_rels/.rels")).unwrap().to_vec(), rels);
    let read = document.metadata().unwrap();
    assert_eq!(read.core.title, metadata.core.title);
    assert_eq!(read.custom.get("Client").unwrap(), "Acme & Co");
}
