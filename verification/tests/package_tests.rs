use aigov::error::OfficeError;
use aigov::package::OoxmlPackage;
use aigov::part::PartName;
use std::io::Write;

fn zip_bytes(entries: &[(&str, &[u8])]) -> Vec<u8> {
    let mut buffer = std::io::Cursor::new(Vec::new());
    {
        let mut archive = zip::ZipWriter::new(&mut buffer);
        let options = zip::write::SimpleFileOptions::default();
        for (name, content) in entries {
            if name.ends_with('/') {
                archive.add_directory(*name, options).unwrap();
            } else {
                archive.start_file(*name, options).unwrap();
                archive.write_all(content).unwrap();
            }
        }
        archive.finish().unwrap();
    }
    buffer.into_inner()
}

#[test]
fn from_bytes_loads_files_and_skips_directories() {
    let bytes = zip_bytes(&[("word/", &[]), ("/word/document.xml", b"document"), ("word/styles.xml", b"styles")]);

    let package = OoxmlPackage::from_bytes(&bytes).unwrap();

    assert_eq!(package.source_path(), None);
    assert_eq!(package.parts(), vec![PartName::from("word/document.xml"), PartName::from("word/styles.xml")]);
    assert_eq!(package.read_part(&PartName::from("word/document.xml")).unwrap(), b"document");
}

#[test]
fn parts_are_sorted_and_part_names_are_normalized() {
    let bytes = zip_bytes(&[("z.xml", b"z"), ("/a.xml", b"a")]);
    let package = OoxmlPackage::from_bytes(&bytes).unwrap();

    assert_eq!(package.parts(), vec![PartName::from("a.xml"), PartName::from("z.xml")]);
    assert!(package.contains_part(&PartName::from("/a.xml")));
}

#[test]
fn write_and_remove_part_update_the_package() {
    let mut package = OoxmlPackage::from_bytes(&zip_bytes(&[("old.xml", b"old")])).unwrap();
    let new_part = PartName::from("new.xml");

    package.write_part(new_part.clone(), b"new".to_vec());
    assert_eq!(package.read_part(&new_part).unwrap(), b"new");
    assert!(package.remove_part(&PartName::from("old.xml")));
    assert!(!package.remove_part(&PartName::from("missing.xml")));
    assert!(!package.contains_part(&PartName::from("old.xml")));
}

#[test]
fn reading_a_missing_part_returns_a_descriptive_error() {
    let package = OoxmlPackage::from_bytes(&zip_bytes(&[])).unwrap();

    let error = package.read_part(&PartName::from("word/document.xml")).unwrap_err();

    assert!(matches!(error, OfficeError::PartNotFound(ref part) if part == &PartName::from("word/document.xml")));
    assert_eq!(error.to_string(), "Package part not found: word/document.xml");
}

#[test]
fn invalid_zip_bytes_are_rejected() {
    let error = OoxmlPackage::from_bytes(b"not a zip").unwrap_err();

    assert!(matches!(error, OfficeError::Zip(_)));
}

#[test]
fn package_bytes_read_back_as_the_same_parts() {
    let package = OoxmlPackage::from_bytes(&zip_bytes(&[("word/document.xml", b"document"), ("docProps/core.xml", b"core")]))
        .unwrap();

    let saved = OoxmlPackage::from_bytes(&package.to_bytes().unwrap()).unwrap();

    assert_eq!(saved.parts(), package.parts());
    assert_eq!(saved.read_part(&PartName::from("word/document.xml")).unwrap(), b"document");
    assert_eq!(saved.read_part(&PartName::from("docProps/core.xml")).unwrap(), b"core");
}

#[test]
fn package_remembers_the_path_it_was_read_from() {
    let bytes = zip_bytes(&[("a.xml", b"a")]);

    let package = OoxmlPackage::from_file_bytes(String::from("report.docx"), &bytes).unwrap();

    assert_eq!(package.source_path(), Some("report.docx"));
}

#[test]
fn part_names_drop_leading_slashes_and_use_forward_slashes() {
    assert_eq!(PartName::new("//word\\media\\image1.png").as_str(), "word/media/image1.png");
    assert_eq!(PartName::new("word/document.xml").as_str(), "word/document.xml");
    assert_eq!(PartName::new("").as_str(), "");
}

#[test]
fn registering_a_part_in_content_types_is_idempotent() {
    let mut package = OoxmlPackage::from_bytes(&zip_bytes(&[("[Content_Types].xml", b"<Types></Types>")])).unwrap();

    package.ensure_content_type_override("/docProps/custom.xml", "text/x").unwrap();
    package.ensure_content_type_override("/docProps/custom.xml", "text/x").unwrap();

    assert_eq!(
        package.read_part(&PartName::from("[Content_Types].xml")).unwrap(),
        br#"<Types><Override PartName="/docProps/custom.xml" ContentType="text/x"/></Types>"#
    );
}

#[test]
fn registering_in_a_self_closed_root_reopens_it() {
    let xml = br#"<?xml version="1.0"?><Relationships xmlns="r"/>"#;

    let updated = aigov::registration::ensure_relationship(xml, "rId9", "http://t", "a.xml").unwrap();

    assert_eq!(
        String::from_utf8(updated).unwrap(),
        r#"<?xml version="1.0"?><Relationships xmlns="r"><Relationship Id="rId9" Type="http://t" Target="a.xml"/></Relationships>"#
    );
}

#[test]
fn registering_without_a_root_is_an_error() {
    assert!(aigov::registration::ensure_override(b"<Other></Other>", "/a.xml", "text/x").is_err());
    assert!(aigov::registration::ensure_override(&[0xff, 0xfe], "/a.xml", "text/x").is_err());
}

#[test]
fn saved_parts_named_like_directories_are_not_read_back() {
    let mut package = OoxmlPackage::from_bytes(&zip_bytes(&[("word/document.xml", b"document")])).unwrap();
    package.write_part(PartName::new("media/"), b"ignored".to_vec());

    let saved = OoxmlPackage::from_bytes(&package.to_bytes().unwrap()).unwrap();

    assert!(saved.contains_part(&PartName::new("word/document.xml")));
    assert!(!saved.contains_part(&PartName::new("media/")));
    assert_eq!(saved.parts().len(), 1);
}

#[test]
fn a_relationship_type_named_only_in_a_target_is_still_registered() {
    let xml = br#"<Relationships><Relationship Id="rId1" Type="http://other" Target="http://t"/></Relationships>"#;

    let updated = aigov::registration::ensure_relationship(xml, "rId9", "http://t", "a.xml").unwrap();

    assert_eq!(
        String::from_utf8(updated).unwrap(),
        r#"<Relationships><Relationship Id="rId1" Type="http://other" Target="http://t"/><Relationship Id="rId9" Type="http://t" Target="a.xml"/></Relationships>"#
    );
}

#[test]
fn registering_a_relationship_twice_changes_nothing_the_second_time() {
    let xml = br#"<Relationships></Relationships>"#;

    let once = aigov::registration::ensure_relationship(xml, "rId9", "http://t", "a.xml").unwrap();
    let twice = aigov::registration::ensure_relationship(&once, "rId9", "http://t", "a.xml").unwrap();

    assert_eq!(once, twice);
    let once = aigov::registration::ensure_override(b"<Types/>", "/a.xml", "text/x").unwrap();
    let twice = aigov::registration::ensure_override(&once, "/a.xml", "text/x").unwrap();
    assert_eq!(once, twice);
}

#[test]
fn registering_without_a_root_names_the_missing_closing_tag() {
    match aigov::registration::ensure_override(b"<Other></Other>", "/a.xml", "text/x") {
        Err(OfficeError::InvalidDocument(message)) => {
            assert_eq!(message, "Invalid package XML: missing </Types>")
        }
        other => panic!("unexpected result: {:?}", other),
    }
}

#[test]
fn part_names_convert_from_text() {
    assert_eq!(PartName::from("/word\\document.xml").as_str(), "word/document.xml");
}

#[test]
fn registering_in_bytes_that_are_not_utf8_reports_the_decoding_error() {
    match aigov::registration::ensure_override(&[0xff, 0xfe], "/a.xml", "text/x") {
        Err(OfficeError::InvalidDocument(message)) => {
            assert!(message.starts_with("Invalid package XML: "));
            assert!(message.len() > "Invalid package XML: ".len());
        }
        other => panic!("unexpected result: {:?}", other),
    }
}

fn archive_listing(bytes: &[u8]) -> Vec<(String, bool, Vec<u8>)> {
    let mut archive = zip::ZipArchive::new(std::io::Cursor::new(bytes.to_vec())).unwrap();
    let mut listing = Vec::new();
    for index in 0..archive.len() {
        let mut entry = archive.by_index(index).unwrap();
        let mut content = Vec::new();
        std::io::Read::read_to_end(&mut entry, &mut content).unwrap();
        listing.push((entry.name().unwrap().to_string(), entry.is_dir(), content));
    }
    listing
}

#[test]
fn recording_a_source_rewrites_the_archive_in_order() {
    let archive = zip_bytes(&[
        ("[Content_Types].xml", b"<Types></Types>"),
        ("_rels/.rels", b"<Relationships></Relationships>"),
        ("word/", b""),
        ("word/document.xml", b"<w:document/>"),
    ]);

    let updated = aigov::archive_edit::add_source_to_archive(&archive, "https://example.com").unwrap().unwrap();

    let listing = archive_listing(&updated);
    let names: Vec<&str> = listing.iter().map(|(name, _, _)| name.as_str()).collect();
    assert_eq!(names, vec!["[Content_Types].xml", "_rels/.rels", "word/", "word/document.xml", "docProps/custom.xml"]);
    assert!(String::from_utf8(listing[0].2.clone()).unwrap().contains(r#"PartName="/docProps/custom.xml""#));
    assert!(String::from_utf8(listing[1].2.clone()).unwrap().contains("custom-properties"));
    assert!(listing[2].1);
    assert_eq!(listing[3].2, b"<w:document/>".to_vec());
    let custom = String::from_utf8(listing[4].2.clone()).unwrap();
    assert!(custom.contains(r#"pid="2" name="Source""#));
    assert!(custom.contains("https://example.com"));
}

#[test]
fn recording_a_source_in_bytes_that_are_no_archive_is_a_zip_error() {
    assert!(matches!(aigov::archive_edit::add_source_to_archive(b"not a zip", "s"), Err(OfficeError::Zip(_))));
    assert!(matches!(aigov::archive_edit::unzip_entries(b"not a zip"), Err(OfficeError::Zip(_))));
}

#[test]
fn unzipping_lists_entries_inside_the_directory_and_skips_escaping_ones() {
    let archive = zip_bytes(&[
        ("word/", b""),
        ("word/document.xml", b"<w:document/>"),
        ("../outside.txt", b"escape"),
        ("/absolute.txt", b"absolute"),
    ]);

    let entries = aigov::archive_edit::unzip_entries(&archive).unwrap();

    assert_eq!(entries.len(), 3);
    assert_eq!(entries[0], ("word".to_string(), true, Vec::new()));
    assert_eq!(entries[1], ("word/document.xml".to_string(), false, b"<w:document/>".to_vec()));
    assert_eq!(entries[2].2, b"absolute".to_vec());
}

#[test]
fn entry_names_are_listed_in_order() {
    let archive = zip_bytes(&[("b.xml", b"b"), ("word/", b""), ("a.xml", b"a")]);
    assert_eq!(
        aigov::archive_edit::archive_entry_names(&archive).unwrap(),
        vec!["b.xml".to_string(), "word/".to_string(), "a.xml".to_string()]
    );
}
