//! Opening a file's bytes as the Office document of its detected format.
use crate::error::OfficeError;
use crate::formats::{detected_format, FileKind};
use crate::package::archive_parts;
use crate::zip_io::zip_opens;
use vstd::prelude::*;

verus! {

/// Opens Office documents of the supported formats.
pub struct Document;

impl Document {
    /// Opens the bytes of the file at `path` as the document of its
    /// detected format: a Word document for the DOCX format, else an error
    /// naming the path.
    pub fn open(path: &str, bytes: &[u8]) -> (document: Result<crate::formats::Document, OfficeError>)
        ensures
            detected_format(bytes@) == FileKind::OfficeOpenXmlDocument ==> (document is Ok <==> archive_parts(
                bytes@,
            ) is Some) && (document matches Ok(d) ==> archive_parts(bytes@) == Some(d.docx().contents())
                && d.docx().origin() is None) && (document matches Err(e) ==> if zip_opens(bytes@) {
                e is Zip || e is Io
            } else {
                e is Zip
            }),
            detected_format(bytes@) != FileKind::OfficeOpenXmlDocument ==> (document matches Err(
                OfficeError::UnsupportedFileType(p),
            ) && p@ == path@),
    {
        crate::formats::Document::from_bytes(path, bytes)
    }
}

} // verus!
