use aigov::ai_policy::{parse_prompt, AiPolicy};
use aigov::commands::{
    output_path, parse_custom_property, DestinationArgs, InjectArgs, PolicyCommand, PolicyPreset, ReplaceArgs, SetArgs,
};
use aigov::metadata::OfficeMetadata;
use aigov::metadata_patch::{keywords_from, KeywordsInput, MetadataPatch};
use aigov::numbers::{decimal_text, parse_bool, parse_u32};
use aigov::replacement::CaseMatching;
use aigov::source_property::{
    add_content_type_override, add_custom_property_relationship, add_source_items, parse_i32, source_pid_overflows,
    temporary_path_for, update_custom_properties,
};
use aigov::commands::{handle_policy, run, InjectPolicy, InjectPolicyArgs, PolicyOutcome, UpdateArgs};
use aigov::docx::{AiPolicyDocument, DocxDocument, OfficeDocument, OoxmlDocument};
use aigov::text_map::TextMap;
use std::io::Write;

fn empty_set_args() -> SetArgs {
    SetArgs {
        title: None,
        description: None,
        author: None,
        keywords: None,
        creator: None,
        subject: None,
        category: None,
        content_status: None,
        content_type: None,
        language: None,
        identifier: None,
        version: None,
        custom: vec![],
        profile: None,
        destination: DestinationArgs { output: None, in_place: false },
    }
}

#[test]
fn converts_custom_properties_to_a_metadata_patch() {
    let args = SetArgs { custom: vec![("Client".into(), "Acme".into())], ..empty_set_args() };

    let patch = MetadataPatch::from(&args);

    assert_eq!(patch.custom.unwrap().get("Client").unwrap(), "Acme");
}

#[test]
fn presets_map_to_their_expected_policies() {
    let permissive = PolicyPreset::Permissive.policy();
    let standard = PolicyPreset::Standard.policy();
    let restricted = PolicyPreset::Restricted.policy();

    assert!(permissive.training_allowed);
    assert!(standard.human_review_required);
    assert!(!standard.attribution_required);
    assert!(restricted.attribution_required);
    assert!(!restricted.training_allowed);
}

#[test]
fn inject_uses_requested_output_path() {
    let command = PolicyCommand::Inject(InjectArgs { output: Some("protected.docx".into()), preset: None });

    assert_eq!(output_path("source.docx", &command), "protected.docx");
}

#[test]
fn other_policy_commands_write_to_the_input() {
    assert_eq!(output_path("source.docx", &PolicyCommand::Remove), "source.docx");
    let command = PolicyCommand::Inject(InjectArgs { output: None, preset: None });
    assert_eq!(output_path("source.docx", &command), "source.docx");
}

#[test]
fn replaces_source_without_removing_other_properties() {
    let existing = br#"<Properties xmlns="http://schemas.openxmlformats.org/officeDocument/2006/custom-properties" xmlns:vt="http://schemas.openxmlformats.org/officeDocument/2006/docPropsVTypes"><property fmtid="{D5CDD505-2E9C-101B-9397-08002B2CF9AE}" pid="2" name="Owner"><vt:lpwstr>Ada</vt:lpwstr></property><property fmtid="{D5CDD505-2E9C-101B-9397-08002B2CF9AE}" pid="3" name="Source"><vt:lpwstr>old</vt:lpwstr></property></Properties>"#;

    let updated = String::from_utf8(update_custom_properties(Some(existing), "new & verified").unwrap()).unwrap();

    assert!(updated.contains("name=\"Owner\""));
    assert!(updated.contains("new &amp; verified"));
    assert_eq!(updated.matches("name=\"Source\"").count(), 1);
}

#[test]
fn source_gets_the_next_property_id() {
    let existing = br#"<Properties><property pid="7" name="Owner"><vt:lpwstr>Ada</vt:lpwstr></property></Properties>"#;

    let updated = String::from_utf8(update_custom_properties(Some(existing), "s").unwrap()).unwrap();

    assert!(updated.contains("pid=\"8\" name=\"Source\""));
}

#[test]
fn a_new_custom_part_holds_only_the_source() {
    let updated = String::from_utf8(update_custom_properties(None, "web").unwrap()).unwrap();

    assert_eq!(
        updated,
        r#"<Properties xmlns="http://schemas.openxmlformats.org/officeDocument/2006/custom-properties" xmlns:vt="http://schemas.openxmlformats.org/officeDocument/2006/docPropsVTypes"><property fmtid="{D5CDD505-2E9C-101B-9397-08002B2CF9AE}" pid="2" name="Source"><vt:lpwstr>web</vt:lpwstr></property></Properties>"#
    );
}

#[test]
fn an_invalid_property_id_is_an_error() {
    let existing = br#"<Properties><property pid="x" name="Owner"/></Properties>"#;

    assert!(update_custom_properties(Some(existing), "s").is_err());
}

#[test]
fn custom_part_registration_is_added_once() {
    let types = add_content_type_override("<Types></Types>");
    assert_eq!(
        types,
        r#"<Types><Override PartName="/docProps/custom.xml" ContentType="application/vnd.openxmlformats-officedocument.custom-properties+xml"/></Types>"#
    );
    assert_eq!(add_content_type_override(&types), types);

    let rels = add_custom_property_relationship("<Relationships></Relationships>");
    assert!(rels.contains(r#"Id="rIdCustomProperties""#));
    assert_eq!(add_custom_property_relationship(&rels), rels);
    assert_eq!(add_content_type_override("<Types/>"), "<Types/>");
}

#[test]
fn temporary_path_is_beside_the_file() {
    assert_eq!(temporary_path_for("a/report.docx"), "a/report.docx.metadata-tmp");
}

#[test]
fn applies_custom_profile_properties_without_removing_existing_ones() {
    let mut custom = TextMap::new();
    custom.insert("Client", String::from("Acme"));
    let patch = MetadataPatch { custom: Some(custom), ..MetadataPatch::default() };
    let mut metadata = OfficeMetadata::default();
    metadata.custom.insert("Owner", "Ada".into());

    patch.apply_to(&mut metadata).unwrap();

    assert_eq!(metadata.custom.get("Client").unwrap(), "Acme");
    assert_eq!(metadata.custom.get("Owner").unwrap(), "Ada");
}

#[test]
fn patch_keeps_fields_it_does_not_set() {
    let mut metadata = OfficeMetadata::default();
    metadata.core.title = Some("Old".into());
    metadata.core.subject = Some("Kept".into());
    metadata.core.keywords = vec!["x".into()];
    let patch = MetadataPatch { title: Some("New".into()), ..MetadataPatch::default() };

    patch.apply_to(&mut metadata).unwrap();

    assert_eq!(metadata.core.title.as_deref(), Some("New"));
    assert_eq!(metadata.core.subject.as_deref(), Some("Kept"));
    assert_eq!(metadata.core.keywords, vec!["x".to_string()]);
}

#[test]
fn applying_a_patch_twice_is_applying_it_once() {
    let make = || {
        let mut custom = TextMap::new();
        custom.insert("Team", String::from("Docs"));
        MetadataPatch { title: Some("T".into()), custom: Some(custom), ..MetadataPatch::default() }
    };
    let mut once = OfficeMetadata::default();
    make().apply_to(&mut once).unwrap();
    let mut twice = OfficeMetadata::default();
    make().apply_to(&mut twice).unwrap();
    make().apply_to(&mut twice).unwrap();

    assert_eq!(format!("{:?}", once), format!("{:?}", twice));
}

#[test]
fn set_arguments_fall_back_to_the_author_and_split_keywords() {
    let args = SetArgs {
        author: Some("Ada".into()),
        keywords: Some("rust, office ,".into()),
        custom: vec![("A".into(), "1".into()), ("A".into(), "2".into())],
        ..empty_set_args()
    };

    let patch = MetadataPatch::from(&args);

    assert_eq!(patch.creator.as_deref(), Some("Ada"));
    assert_eq!(patch.keywords.unwrap(), vec!["rust".to_string(), "office".to_string()]);
    assert_eq!(patch.custom.unwrap().get("A").unwrap(), "2");
    assert!(MetadataPatch::from(&empty_set_args()).custom.is_none());
}

fn patch_keywords(json: &str) -> Option<Vec<String>> {
    let value: serde_json::Value = serde_json::from_str(json).unwrap();
    let input = match &value["keywords"] {
        serde_json::Value::String(text) => KeywordsInput::CommaSeparated(text.clone()),
        serde_json::Value::Array(items) => {
            KeywordsInput::List(items.iter().map(|item| item.as_str().unwrap().to_string()).collect())
        }
        _ => return None,
    };
    Some(keywords_from(input))
}

#[test]
fn accepts_comma_separated_profile_keywords() {
    let keywords = patch_keywords(r#"{"keywords":"test, profile, office"}"#);
    assert_eq!(keywords, Some(vec!["test".into(), "profile".into(), "office".into()]));
}

#[test]
fn accepts_keyword_array_profile_keywords() {
    let keywords = patch_keywords(r#"{"keywords":["test","profile"]}"#);
    assert_eq!(keywords, Some(vec!["test".into(), "profile".into()]));
}

#[test]
fn custom_property_arguments_need_a_name_and_an_equals_sign() {
    assert_eq!(parse_custom_property("Client=Acme=Co").unwrap(), ("Client".to_string(), "Acme=Co".to_string()));
    assert!(parse_custom_property("missing").is_err());
    assert!(parse_custom_property("=value").is_err());
    assert_eq!(parse_custom_property("Empty=").unwrap(), ("Empty".to_string(), String::new()));
}

#[test]
fn replace_arguments_choose_case_matching() {
    let args = ReplaceArgs { output: None, search: None, replace: None, ignore_case: true };
    assert!(args.options().case_matching == CaseMatching::UnicodeInsensitive);
    let args = ReplaceArgs { ignore_case: false, ..args };
    assert!(args.options().case_matching == CaseMatching::Sensitive);
}

#[test]
fn destination_defaults_to_the_input() {
    let args = DestinationArgs { output: None, in_place: true };
    assert_eq!(args.output_or("in.docx"), "in.docx");
    let args = DestinationArgs { output: Some("out.docx".into()), in_place: false };
    assert_eq!(args.output_or("in.docx"), "out.docx");
}

#[test]
fn numbers_read_back_from_their_decimal_form() {
    for n in [0u32, 7, 10, 42, 1200, u32::MAX] {
        assert_eq!(parse_u32(&decimal_text(n as u128)), Some(n));
    }
    assert_eq!(decimal_text(2147483648), "2147483648");
    assert_eq!(parse_u32("+5"), Some(5));
    assert_eq!(parse_u32("-5"), None);
    assert_eq!(parse_u32(""), None);
    assert_eq!(parse_u32("+"), None);
    assert_eq!(parse_u32("4294967296"), None);
    assert_eq!(parse_u32("007"), Some(7));
    assert_eq!(parse_i32("-2147483648"), Some(i32::MIN));
    assert_eq!(parse_i32("2147483648"), None);
    assert_eq!(parse_i32("-0"), Some(0));
    assert_eq!(parse_i32("-"), None);
    assert_eq!(parse_bool("1"), Some(true));
    assert_eq!(parse_bool("false"), Some(false));
    assert_eq!(parse_bool("True"), None);
}

#[test]
fn policy_prompt_reads_back_as_the_policy() {
    let policy = AiPolicy {
        id: "a\\b\nc".into(),
        human_review_required: true,
        training_allowed: false,
        attribution_required: true,
        owner: Some("legal\nteam".into()),
    };

    let prompt = policy.to_prompt();

    assert!(prompt.starts_with("Policy ID: a\\\\b\\nc\n"));
    assert_eq!(format!("{:?}", parse_prompt(&prompt).unwrap()), format!("{:?}", policy));
    let without_owner = AiPolicy { owner: None, ..policy };
    assert_eq!(format!("{:?}", parse_prompt(&without_owner.to_prompt()).unwrap()), format!("{:?}", without_owner));
    assert!(parse_prompt("Policy ID: x\n").is_none());
    assert!(parse_prompt("Policy ID: a\\q\nHuman review required: yes\nTraining allowed: no\nAttribution required: no\n").is_none());
}

fn minimal_docx_bytes() -> Vec<u8> {
    let mut buffer = std::io::Cursor::new(Vec::new());
    {
        let mut archive = zip::ZipWriter::new(&mut buffer);
        let options = zip::write::SimpleFileOptions::default();
        let parts: [(&str, &[u8]); 3] = [
            (
                "[Content_Types].xml",
                br#"<?xml version="1.0" encoding="UTF-8"?><Types xmlns="http://schemas.openxmlformats.org/package/2006/content-types"><Override PartName="/word/document.xml" ContentType="application/vnd.openxmlformats-officedocument.wordprocessingml.document.main+xml"/></Types>"#,
            ),
            (
                "_rels/.rels",
                br#"<?xml version="1.0" encoding="UTF-8"?><Relationships xmlns="http://schemas.openxmlformats.org/package/2006/relationships"/>"#,
            ),
            (
                "word/document.xml",
                br#"<?xml version="1.0" encoding="UTF-8"?><w:document xmlns:w="http://schemas.openxmlformats.org/wordprocessingml/2006/main"><w:body><w:p><w:r><w:t>Hello world</w:t></w:r></w:p></w:body></w:document>"#,
            ),
        ];
        for (name, content) in parts {
            archive.start_file(name, options).unwrap();
            archive.write_all(content).unwrap();
        }
        archive.finish().unwrap();
    }
    buffer.into_inner()
}

#[test]
fn through_unsupported_file_error() {
    let error = aigov::formats::Document::from_bytes("test.xyz", b"not an Office document").err().unwrap();

    assert!(matches!(error, aigov::error::OfficeError::UnsupportedFileType(ref path) if path == "test.xyz"));
}

#[test]
fn policy_commands_inject_validate_and_remove() {
    let mut document = aigov::formats::Document::from_bytes("report.docx", &minimal_docx_bytes()).unwrap();

    let inject = PolicyCommand::Inject(InjectArgs { output: None, preset: Some(PolicyPreset::Restricted) });
    assert_eq!(run(&mut document, &inject).unwrap(), PolicyOutcome::Injected);
    assert_eq!(run(&mut document, &PolicyCommand::Validate).unwrap(), PolicyOutcome::Valid);
    let update = PolicyCommand::Update(UpdateArgs { preset: None });
    assert_eq!(run(&mut document, &update).unwrap(), PolicyOutcome::Updated);
    assert_eq!(run(&mut document, &PolicyCommand::Remove).unwrap(), PolicyOutcome::Removed);
    assert_eq!(run(&mut document, &PolicyCommand::Remove).unwrap(), PolicyOutcome::NothingToRemove);
    assert!(run(&mut document, &PolicyCommand::Validate).is_err());
    assert!(run(&mut document, &update).is_err());
}

#[test]
fn simple_policy_command_requires_human_review() {
    let mut document = aigov::formats::Document::from_bytes("report.docx", &minimal_docx_bytes()).unwrap();

    handle_policy(&mut document, &InjectPolicyArgs { inject: Some(InjectPolicy::Strong) }).unwrap();

    let policy = document.as_ai_policy_document().unwrap().policy().unwrap().unwrap();
    assert!(policy.human_review_required);
    assert!(!policy.training_allowed);
    assert_eq!(policy.id, "");
}

#[test]
fn replacing_through_a_document_counts_matches() {
    let mut document = aigov::formats::Document::from_bytes("report.docx", &minimal_docx_bytes()).unwrap();

    let count = aigov::commands::replace(&mut document, "world", "there", aigov::replacement::ReplaceOptions::new())
        .unwrap();

    assert_eq!(count, 1);
    assert!(document.validate().unwrap().is_empty());
}

#[test]
fn writing_metadata_keeps_the_main_part() {
    let mut document = DocxDocument::from_bytes(&minimal_docx_bytes()).unwrap();
    let before = document.document_xml().unwrap().to_vec();
    let mut metadata = OfficeMetadata::default();
    metadata.core.title = Some("Quarterly report".into());

    document.set_metadata(&metadata).unwrap();

    assert_eq!(document.document_xml().unwrap(), before.as_slice());
    let read = document.metadata().unwrap();
    assert_eq!(read.core.title.as_deref(), Some("Quarterly report"));
}

#[test]
fn the_largest_property_id_leaves_no_id_for_the_source() {
    let existing: &[u8] = br#"<Properties><property pid="2147483647" name="Owner"><vt:lpwstr>Ada</vt:lpwstr></property></Properties>"#;

    assert!(source_pid_overflows(Some(existing), "s"));
    assert!(add_source_items(Vec::new(), Some(existing), "s").unwrap().is_none());
}

#[test]
fn the_id_below_the_largest_leaves_the_largest_for_the_source() {
    let existing: &[u8] = br#"<Properties><property pid="2147483646" name="Owner"><vt:lpwstr>Ada</vt:lpwstr></property></Properties>"#;

    assert!(!source_pid_overflows(Some(existing), "s"));
    let updated = String::from_utf8(update_custom_properties(Some(existing), "s").unwrap()).unwrap();
    assert!(updated.contains("pid=\"2147483647\" name=\"Source\""));
}

#[test]
fn a_large_id_after_the_end_of_properties_does_not_overflow() {
    let existing: &[u8] = br#"<Properties></Properties><property pid="2147483647" name="Owner"/>"#;

    assert!(!source_pid_overflows(Some(existing), "s"));
}
