//! Inspection and editing of OOXML office documents.
pub mod text;
pub mod xml;
pub mod error;
pub mod part;
pub mod xml_reader;
pub mod xml_text;
pub mod splice;
pub mod replacement;
pub mod word_text;
pub mod text_map;
pub mod zip_io;
pub mod package;
pub mod closing_tag;
pub mod registration;
pub mod keywords;
pub mod metadata;
pub mod elements;
pub mod xml_build;
pub mod core_props;
pub mod numbers;
pub mod extended_props;
pub mod attributes;
pub mod custom_props;
pub mod properties;
pub mod metadata_patch;
pub mod ai_policy;
pub mod policy_markup;
pub mod docx;
pub mod word_document;
pub mod formats;
pub mod factory;
pub mod source_property;
pub mod commands;
pub mod policy_laws;
pub mod core_laws;
pub mod extended_laws;
pub mod custom_laws;
pub mod reader_pieces;
pub mod archive_edit;
