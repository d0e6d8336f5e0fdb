//! Opening Office documents by their detected file format.
use crate::docx::{
    docx_issues, main_part_error, main_part_unreadable, text_replaced, DocxDocument, OfficeDocument, OoxmlDocument,
    ValidationIssue,
};
use crate::zip_io::zip_opens;
use crate::error::OfficeError;
use crate::metadata::OfficeMetadata;
use crate::package::{archive_parts, reread_parts};
use crate::text_map::sorted_entries;
use crate::properties::{metadata_written, package_metadata};
use crate::replacement::ReplaceOptions;
use vstd::prelude::*;

verus! {

/// The file formats that the library tells apart.
#[derive(Debug, PartialEq, Eq, Structural, Clone, Copy)]
pub enum FileKind {
    /// An Office Open XML word-processing document (DOCX).
    OfficeOpenXmlDocument,
    /// Any other format.
    Other,
}

/// The format that `file_format::FileFormat::from_bytes` detects in a
/// file's bytes, as far as the library tells formats apart.
pub uninterp spec fn detected_format(bytes: Seq<u8>) -> FileKind;

/// Detects a file's format with `file_format::FileFormat::from_bytes`. The
/// contract claims only that the result depends on the bytes alone.
#[verifier::external_body]
fn detect_format(bytes: &[u8]) -> (kind: FileKind)
    ensures
        kind == detected_format(bytes@),
{
    match file_format::FileFormat::from_bytes(bytes) {
        file_format::FileFormat::OfficeOpenXmlDocument => FileKind::OfficeOpenXmlDocument,
        _ => FileKind::Other,
    }
}

/// An Office document of one of the supported formats.
pub enum Document {
    Docx(DocxDocument),
}

impl Document {
    /// The Word document inside.
    pub open spec fn docx(&self) -> DocxDocument {
        match self {
            Document::Docx(d) => *d,
        }
    }

    /// Opens the bytes of a file read from `path` as the document of its
    /// detected format; an unsupported format is an error naming the path.
    pub fn from_bytes(path: &str, bytes: &[u8]) -> (document: Result<Document, OfficeError>)
        ensures
            detected_format(bytes@) == FileKind::OfficeOpenXmlDocument ==> (document is Ok <==> archive_parts(
                bytes@,
            ) is Some) && (document matches Ok(d) ==> archive_parts(bytes@) == Some(d.docx().contents())
                && d.docx().origin() is None) && (document matches Err(e) ==> if zip_opens(bytes@) {
                e is Zip || e is Io
            } else {
                e is Zip
            }),
            detected_format(bytes@) != FileKind::OfficeOpenXmlDocument ==> (document matches Err(
                OfficeError::UnsupportedFileType(p),
            ) && p@ == path@),
    {
        match detect_format(bytes) {
            FileKind::OfficeOpenXmlDocument => Ok(Document::Docx(DocxDocument::from_bytes(bytes)?)),
            FileKind::Other => Err(OfficeError::UnsupportedFileType(path.to_owned())),
        }
    }

    /// The document as one that carries an AI policy, when its format
    /// supports that.
    pub fn as_ai_policy_document(&mut self) -> (document: Option<&mut DocxDocument>)
        ensures
            document matches Some(d) && *d == old(self).docx() && final(self).docx() == *final(d),
    {
        match self {
            Document::Docx(d) => Some(d),
        }
    }
}

impl OfficeDocument for Document {
    fn replace_text(&mut self, search: &str, replacement: &str, options: ReplaceOptions) -> (count: Result<
        usize,
        OfficeError,
    >)
        ensures
            match text_replaced(old(self).docx().contents(), search@, replacement@, options.case_matching) {
                Some((n, contents)) => count matches Ok(c) && c == n && final(self).docx().contents() == contents,
                None => final(self).docx().contents() == old(self).docx().contents() && (count matches Err(e)
                    && main_part_error(
                    old(self).docx().contents(),
                    main_part_unreadable(old(self).docx().contents()),
                    e,
                    |e: OfficeError| e is InvalidDocument,
                )),
            },
    {
        match self {
            Document::Docx(d) => d.replace_text(search, replacement, options),
        }
    }

    fn source_path(&self) -> (path: Option<&str>)
        ensures
            match path {
                Some(p) => self.docx().origin() == Some(p@),
                None => self.docx().origin() is None,
            },
    {
        match self {
            Document::Docx(d) => d.source_path(),
        }
    }

    fn metadata(&self) -> (metadata: Result<OfficeMetadata, OfficeError>)
        ensures
            match package_metadata(self.docx().contents()) {
                Some(view) => metadata matches Ok(m) && m@ == view,
                None => metadata matches Err(e) && (e is Xml || e is InvalidDocument),
            },
    {
        match self {
            Document::Docx(d) => d.metadata(),
        }
    }

    fn set_metadata(&mut self, metadata: &OfficeMetadata) -> (done: Result<(), OfficeError>)
        ensures
            match metadata_written(old(self).docx().contents(), metadata@) {
                Ok(contents) => done is Ok && final(self).docx().contents() == contents,
                Err(contents) => final(self).docx().contents() == contents && (done matches Err(e) && (e
                    is PartNotFound || e is InvalidDocument)),
            },
    {
        match self {
            Document::Docx(d) => d.set_metadata(metadata),
        }
    }

    fn validate(&self) -> (issues: Result<Vec<ValidationIssue>, OfficeError>)
        ensures
            issues matches Ok(list) && crate::docx::issues_view(list@) == docx_issues(self.docx().contents()),
    {
        match self {
            Document::Docx(d) => d.validate(),
        }
    }

    fn to_bytes(&self) -> (bytes: Result<Vec<u8>, OfficeError>)
        ensures
            bytes matches Ok(b) ==> archive_parts(b@) == Some(reread_parts(sorted_entries(self.docx().contents()))),
            bytes matches Err(e) ==> e is Zip || e is Io,
    {
        match self {
            Document::Docx(d) => d.to_bytes(),
        }
    }
}

} // verus!
