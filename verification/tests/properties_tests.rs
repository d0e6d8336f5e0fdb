use aigov::core_props::{apply_core_properties, create_core_properties};
use aigov::custom_props::{create_custom_properties, parse};
use aigov::elements::parse_text_elements;
use aigov::extended_props::{apply_properties, create_extended_properties, read_vectors};
use aigov::metadata::{HeadingPair, OfficeMetadata};

#[test]
fn properties_parses_core_properties() {
    let xml = br#"
            <cp:coreProperties
                xmlns:cp="http://schemas.openxmlformats.org/package/2006/metadata/core-properties"
                xmlns:dc="http://purl.org/dc/elements/1.1/">
                <dc:title>A &amp; B</dc:title>
                <dc:subject>Roadmap</dc:subject>
                <dc:creator>Jane Doe</dc:creator>
                <cp:lastModifiedBy>John Doe</cp:lastModifiedBy>
                <dc:description><![CDATA[Plan <draft>]]></dc:description>
                <cp:keywords>planning, product, 2026</cp:keywords>
            </cp:coreProperties>
        "#;
    let properties = parse_text_elements(xml).unwrap();

    assert_eq!(properties[0].name, "title");
    assert_eq!(properties[0].value, "A & B");
    assert_eq!(properties[1].name, "subject");
    assert_eq!(properties[1].value, "Roadmap");
    assert_eq!(properties[2].name, "creator");
    assert_eq!(properties[2].value, "Jane Doe");
    assert_eq!(properties[3].name, "lastModifiedBy");
    assert_eq!(properties[3].value, "John Doe");
    assert_eq!(properties[4].name, "description");
    assert_eq!(properties[4].value, "Plan <draft>");
    assert_eq!(properties[5].name, "keywords");
    assert_eq!(properties[5].value, "planning, product, 2026");
}

#[test]
fn properties_parses_extended_properties() {
    let xml = br#"
            <Properties xmlns="http://schemas.openxmlformats.org/officeDocument/2006/extended-properties">
                <Application>Microsoft Office Word</Application>
                <Company>Acme &amp; Co</Company>
            </Properties>
        "#;
    let properties = parse_text_elements(xml).unwrap();

    let company = properties.iter().find(|property| property.name == "Company").expect("Company property");

    assert_eq!(company.value, "Acme & Co");
}

#[test]
fn custom_reads_custom_properties() {
    let xml = br#"
            <Properties xmlns="http://schemas.openxmlformats.org/officeDocument/2006/custom-properties"
                xmlns:vt="http://schemas.openxmlformats.org/officeDocument/2006/docPropsVTypes">
                <property name="Client" fmtid="{x}" pid="2"><vt:lpwstr>Acme &amp; Co</vt:lpwstr></property>
                <property name="Approved" fmtid="{x}" pid="3"><vt:bool>true</vt:bool></property>
            </Properties>
        "#;
    let mut metadata = OfficeMetadata::default();

    parse(xml, &mut metadata).unwrap();

    assert_eq!(metadata.custom.get("Client").unwrap(), "Acme & Co");
    assert_eq!(metadata.custom.get("Approved").unwrap(), "true");
}

#[test]
fn custom_writes_custom_properties() {
    let mut metadata = OfficeMetadata::default();
    metadata.custom.insert("Client", "Acme & Co".into());
    metadata.custom.insert("Approved", "true".into());

    let xml = create_custom_properties(&metadata);
    let mut parsed = OfficeMetadata::default();
    parse(&xml, &mut parsed).unwrap();

    assert_eq!(format!("{:?}", parsed.custom), format!("{:?}", metadata.custom));
    let xml = String::from_utf8(xml).unwrap();
    assert!(xml.contains("pid=\"2\""));
    assert!(xml.contains("pid=\"3\""));
    assert!(xml.contains("Acme &amp; Co"));
}

#[test]
fn creates_core_properties() {
    let mut metadata = OfficeMetadata::default();
    metadata.core.title = Some("A & B".into());
    metadata.core.creator = Some("Jane Doe".into());
    metadata.core.keywords = vec!["planning".into(), "product".into()];
    metadata.core.category = Some("Strategy".into());
    metadata.core.content_status = Some("Draft".into());
    metadata.core.content_type = Some("Report".into());
    metadata.core.language = Some("en-US".into());
    metadata.core.created = Some("2026-08-07T10:00:00Z".into());
    metadata.core.modified = Some("2026-08-07T11:00:00Z".into());
    metadata.core.last_printed = Some("2026-08-07T12:00:00Z".into());
    metadata.core.revision = Some("3".into());
    metadata.core.identifier = Some("report-42".into());
    metadata.core.version = Some("1.2".into());

    let xml = create_core_properties(&metadata);
    let mut parsed = OfficeMetadata::default();
    apply_core_properties(parse_text_elements(&xml).unwrap(), &mut parsed.core);

    assert_eq!(parsed.core.title, metadata.core.title);
    assert_eq!(parsed.core.creator, metadata.core.creator);
    assert_eq!(parsed.core.keywords, metadata.core.keywords);
    assert_eq!(parsed.core.category, metadata.core.category);
    assert_eq!(parsed.core.content_status, metadata.core.content_status);
    assert_eq!(parsed.core.content_type, metadata.core.content_type);
    assert_eq!(parsed.core.language, metadata.core.language);
    assert_eq!(parsed.core.created, metadata.core.created);
    assert_eq!(parsed.core.modified, metadata.core.modified);
    assert_eq!(parsed.core.last_printed, metadata.core.last_printed);
    assert_eq!(parsed.core.revision, metadata.core.revision);
    assert_eq!(parsed.core.identifier, metadata.core.identifier);
    assert_eq!(parsed.core.version, metadata.core.version);
}

#[test]
fn creates_extended_properties() {
    let mut metadata = OfficeMetadata::default();
    let extended = &mut metadata.extended;
    extended.application = Some("Microsoft Word".into());
    extended.app_version = Some("16.0".into());
    extended.template = Some("Normal.dotm".into());
    extended.company = Some("Acme & Co".into());
    extended.total_time = Some(42);
    extended.pages = Some(3);
    extended.words = Some(1200);
    extended.characters = Some(6000);
    extended.characters_with_spaces = Some(7200);
    extended.lines = Some(80);
    extended.paragraphs = Some(12);
    extended.doc_security = Some(0);
    extended.scale_crop = Some(true);
    extended.links_up_to_date = Some(false);
    extended.shared_doc = Some(true);
    extended.hyperlinks_changed = Some(false);
    extended.heading_pairs = vec![HeadingPair { name: "Heading 1".into(), count: 3 }];
    extended.titles_of_parts = vec!["Introduction".into()];
    extended.dig_sig = Some("signed".into());

    let xml = create_extended_properties(&metadata);
    let mut parsed = OfficeMetadata::default();
    apply_properties(parse_text_elements(&xml).unwrap(), &mut parsed);
    read_vectors(&xml, &mut parsed).unwrap();

    assert_eq!(format!("{:?}", parsed), format!("{:?}", metadata));
}

#[test]
fn extended_numbers_and_flags_that_do_not_parse_stay_unset() {
    let xml = br#"<Properties><Pages>three</Pages><Words>+12</Words><ScaleCrop>1</ScaleCrop><SharedDoc>yes</SharedDoc><Lines>4294967296</Lines></Properties>"#;
    let mut metadata = OfficeMetadata::default();
    metadata.extended.pages = Some(9);

    apply_properties(parse_text_elements(xml).unwrap(), &mut metadata);

    assert_eq!(metadata.extended.pages, None);
    assert_eq!(metadata.extended.words, Some(12));
    assert_eq!(metadata.extended.scale_crop, Some(true));
    assert_eq!(metadata.extended.shared_doc, None);
    assert_eq!(metadata.extended.lines, None);
}

#[test]
fn heading_pairs_with_an_odd_number_of_values_are_rejected() {
    let xml = br#"<Properties><HeadingPairs><vt:vector><vt:variant><vt:lpstr>Title</vt:lpstr></vt:variant></vt:vector></HeadingPairs></Properties>"#;
    let mut metadata = OfficeMetadata::default();

    let error = read_vectors(xml, &mut metadata).unwrap_err();

    assert!(matches!(error, aigov::error::OfficeError::InvalidDocument(_)));
}

#[test]
fn core_keywords_are_split_at_commas() {
    let xml = br#"<cp:coreProperties><cp:keywords> a, ,b ,c </cp:keywords></cp:coreProperties>"#;
    let mut metadata = OfficeMetadata::default();

    apply_core_properties(parse_text_elements(xml).unwrap(), &mut metadata.core);

    assert_eq!(metadata.core.keywords, vec!["a".to_string(), "b".to_string(), "c".to_string()]);
}

#[test]
fn later_custom_properties_replace_earlier_ones() {
    let xml = br#"<Properties><property name="A"><vt:lpwstr>1</vt:lpwstr></property><property name="A"><vt:lpwstr>2</vt:lpwstr></property></Properties>"#;
    let mut metadata = OfficeMetadata::default();

    parse(xml, &mut metadata).unwrap();

    assert_eq!(metadata.custom.len(), 1);
    assert_eq!(metadata.custom.get("A").unwrap(), "2");
}

#[test]
fn core_properties_read_back_every_field() {
    let mut metadata = OfficeMetadata::default();
    let core = &mut metadata.core;
    core.title = Some("Plan".into());
    core.subject = Some("Budget".into());
    core.creator = Some("Jane".into());
    core.last_modified_by = Some("John".into());
    core.description = Some("Yearly plan".into());
    core.keywords = vec!["alpha".into(), "beta gamma".into()];
    core.category = Some("Finance".into());
    core.content_status = Some("Final".into());
    core.content_type = Some("Report".into());
    core.language = Some("en".into());
    core.created = Some("2026-01-01T00:00:00Z".into());
    core.modified = Some("2026-01-02T00:00:00Z".into());
    core.last_printed = Some("2026-01-03T00:00:00Z".into());
    core.revision = Some("7".into());
    core.identifier = Some("id-1".into());
    core.version = Some("2.0".into());

    let xml = create_core_properties(&metadata);
    let mut parsed = OfficeMetadata::default();
    apply_core_properties(parse_text_elements(&xml).unwrap(), &mut parsed.core);

    assert_eq!(format!("{:?}", parsed.core), format!("{:?}", metadata.core));
}

#[test]
fn empty_core_values_are_not_written() {
    let mut metadata = OfficeMetadata::default();
    metadata.core.title = Some(String::new());
    metadata.core.creator = Some("Jane".into());

    let xml = String::from_utf8(create_core_properties(&metadata)).unwrap();

    assert!(!xml.contains("dc:title"));
    assert!(xml.contains("<dc:creator>Jane</dc:creator>"));
}

fn reread_markup(xml: &[u8], trim_text: bool) -> String {
    let events = aigov::xml_reader::read_events(xml, trim_text).unwrap();
    aigov::xml::write_events(&events)
}

#[test]
fn generated_property_parts_read_back_as_written() {
    let mut metadata = OfficeMetadata::default();
    metadata.core.title = Some("Plan".into());
    metadata.core.keywords = vec!["alpha".into(), "beta".into()];
    metadata.core.created = Some("2026-01-01T00:00:00Z".into());
    metadata.extended.application = Some("Word".into());
    metadata.extended.pages = Some(4);
    metadata.extended.scale_crop = Some(false);
    metadata.extended.heading_pairs = vec![HeadingPair { name: "Title".into(), count: 1 }];
    metadata.extended.titles_of_parts = vec!["Plan".into()];
    metadata.custom.insert("Client", "Acme".into());

    let core = create_core_properties(&metadata);
    let extended = create_extended_properties(&metadata);
    let custom = create_custom_properties(&metadata);

    assert_eq!(reread_markup(&core, false), String::from_utf8(core).unwrap());
    assert_eq!(reread_markup(&extended, false), String::from_utf8(extended.clone()).unwrap());
    assert_eq!(reread_markup(&extended, true), String::from_utf8(extended).unwrap());
    assert_eq!(reread_markup(&custom, false), String::from_utf8(custom).unwrap());
}

#[test]
fn unreadable_property_markup_is_an_xml_error() {
    let error = parse_text_elements(b"<cp:coreProperties><dc:title>x</dc:wrong></cp:coreProperties>").unwrap_err();

    assert!(matches!(error, aigov::error::OfficeError::Xml(_)));
}

#[test]
fn an_unknown_entity_in_a_property_is_a_document_error() {
    let error = parse_text_elements(b"<cp:coreProperties><dc:title>&unknown;</dc:title></cp:coreProperties>").unwrap_err();

    assert!(matches!(error, aigov::error::OfficeError::InvalidDocument(_)));
}

#[test]
fn heading_pairs_name_what_is_wrong_with_them() {
    let odd = br#"<Properties><HeadingPairs><vt:lpstr>Heading 1</vt:lpstr></HeadingPairs></Properties>"#;
    let mut metadata = OfficeMetadata::default();
    match read_vectors(odd, &mut metadata).unwrap_err() {
        aigov::error::OfficeError::InvalidDocument(message) => {
            assert_eq!(message, "HeadingPairs must contain name/count pairs")
        }
        other => panic!("unexpected error: {:?}", other),
    }
    assert!(metadata.extended.heading_pairs.is_empty());

    let bad_count =
        br#"<Properties><HeadingPairs><vt:lpstr>Heading 1</vt:lpstr><vt:i4>many</vt:i4></HeadingPairs></Properties>"#;
    match read_vectors(bad_count, &mut metadata).unwrap_err() {
        aigov::error::OfficeError::InvalidDocument(message) => {
            assert_eq!(message, "HeadingPairs count must be an unsigned integer")
        }
        other => panic!("unexpected error: {:?}", other),
    }
}

#[test]
fn core_values_with_markup_characters_read_back() {
    let mut metadata = OfficeMetadata::default();
    metadata.core.title = Some("A & B <draft> \"final\" 'v2'".into());
    metadata.core.keywords = vec!["R&D".to_string(), "Q&A".to_string()];

    let xml = create_core_properties(&metadata);
    let mut parsed = OfficeMetadata::default();
    apply_core_properties(parse_text_elements(&xml).unwrap(), &mut parsed.core);

    assert_eq!(parsed.core.title, metadata.core.title);
    assert_eq!(parsed.core.keywords, metadata.core.keywords);
}

#[test]
fn custom_values_with_markup_characters_read_back() {
    let mut metadata = OfficeMetadata::default();
    metadata.custom.insert("Client", "Acme & Co".to_string());
    metadata.custom.insert("Note", "a < b\r\nc".to_string());

    let xml = create_custom_properties(&metadata);
    let mut parsed = OfficeMetadata::default();
    parse(&xml, &mut parsed).unwrap();

    assert_eq!(parsed.custom.get("Client").unwrap(), "Acme & Co");
    assert_eq!(parsed.custom.get("Note").unwrap(), "a < b\r\nc");
}

#[test]
fn unknown_references_are_reported_with_the_reader_error() {
    let xml = br#"<cp:coreProperties><dc:title>A &bogus; B</dc:title></cp:coreProperties>"#;
    match parse_text_elements(xml) {
        Err(aigov::error::OfficeError::InvalidDocument(message)) => {
            assert!(message.starts_with("Invalid metadata property text: "));
            assert!(message.len() > "Invalid metadata property text: ".len());
        }
        other => panic!("unexpected result: {:?}", other.map(|elements| elements.len())),
    }
    let custom = br#"<Properties><property name="Client"><vt:lpwstr>A &bogus; B</vt:lpwstr></property></Properties>"#;
    let mut metadata = OfficeMetadata::default();
    match parse(custom, &mut metadata) {
        Err(aigov::error::OfficeError::InvalidDocument(message)) => {
            assert!(message.starts_with("Invalid custom metadata: "))
        }
        other => panic!("unexpected result: {:?}", other),
    }
}
