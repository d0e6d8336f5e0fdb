//! Reading and writing ZIP archives with the `zip` crate.
use crate::error::OfficeError;
use std::io::{Read, Write};
use vstd::prelude::*;

verus! {

/// One entry of a ZIP archive: its name, whether it is a directory, and its
/// uncompressed content.
pub struct ZipEntry {
    pub name: String,
    pub is_dir: bool,
    pub content: Vec<u8>,
}

/// The mathematical value of a [`ZipEntry`].
pub struct ZipEntryView {
    pub name: Seq<char>,
    pub is_dir: bool,
    pub content: Seq<u8>,
}

impl View for ZipEntry {
    type V = ZipEntryView;

    open spec fn view(&self) -> ZipEntryView {
        ZipEntryView { name: self.name@, is_dir: self.is_dir, content: self.content@ }
    }
}

#[verifier::external_type_specification]
#[verifier::external_body]
#[verifier::reject_recursive_types(R)]
pub struct ExZipArchive<R>(zip::ZipArchive<R>);

/// A ZIP archive being written in memory: a `zip::ZipWriter` over a cursor,
/// opaque to proofs, whose written entries the trusted items below name.
#[verifier::external_body]
pub struct ArchiveWriter {
    writer: zip::ZipWriter<std::io::Cursor<Vec<u8>>>,
}

/// The bytes an archive reads from.
pub uninterp spec fn archive_source(archive: zip::ZipArchive<std::io::Cursor<Vec<u8>>>) -> Seq<u8>;

/// Whether `zip::ZipArchive::new` accepts the bytes as an archive.
pub uninterp spec fn zip_opens(bytes: Seq<u8>) -> bool;

/// How many entries the archive in the bytes lists.
pub uninterp spec fn zip_entry_count(bytes: Seq<u8>) -> nat;

/// Entry `index` of the archive in the bytes: `None` when its name or
/// content cannot be read.
pub uninterp spec fn zip_entry(bytes: Seq<u8>, index: nat) -> Option<ZipEntryView>;

/// Opens the archive held in `bytes` (`zip::ZipArchive::new` on a cursor over
/// a copy of them).
#[verifier::external_body]
pub(crate) fn open_archive(bytes: &[u8]) -> (archive: Result<zip::ZipArchive<std::io::Cursor<Vec<u8>>>, OfficeError>)
    ensures
        archive is Ok <==> zip_opens(bytes@),
        archive matches Ok(a) ==> archive_source(a) == bytes@,
        archive matches Err(e) ==> e is Zip,
{
    zip::ZipArchive::new(std::io::Cursor::new(bytes.to_vec())).map_err(|error| OfficeError::Zip(error.to_string()))
}

/// The number of entries (`ZipArchive::len`).
#[verifier::external_body]
pub(crate) fn archive_len(archive: &zip::ZipArchive<std::io::Cursor<Vec<u8>>>) -> (n: usize)
    ensures
        n == zip_entry_count(archive_source(*archive)),
{
    archive.len()
}

/// Reads entry `index` (`ZipArchive::by_index`, then the entry's name,
/// directory flag and content, read to its end). Name and content failures
/// are reported as ZIP and I/O errors.
#[verifier::external_body]
pub(crate) fn read_archive_entry(archive: &mut zip::ZipArchive<std::io::Cursor<Vec<u8>>>, index: usize) -> (entry: Result<ZipEntry, OfficeError>)
    requires
        index < zip_entry_count(archive_source(*old(archive))),
    ensures
        archive_source(*final(archive)) == archive_source(*old(archive)),
        entry matches Ok(e) ==> zip_entry(archive_source(*old(archive)), index as nat) == Some(e@),
        entry matches Err(e) ==> zip_entry(archive_source(*old(archive)), index as nat) is None && (e is Zip || e is Io),
{
    let mut file = archive.by_index(index).map_err(|error| OfficeError::Zip(error.to_string()))?;
    let name = file.name().map_err(|error| OfficeError::Zip(error.to_string()))?.into_owned();
    let mut content = Vec::new();
    file.read_to_end(&mut content).map_err(|error| OfficeError::Io(error.to_string()))?;
    Ok(ZipEntry { name, is_dir: file.is_dir(), content })
}

/// The options an entry is written with (`zip::write::SimpleFileOptions`):
/// its compression, system, attributes and modification time, opaque to
/// proofs and handed from the reader to the writer as they are.
#[verifier::external_body]
pub(crate) struct EntryOptions {
    options: zip::write::SimpleFileOptions,
}

/// The name of entry `index` (`ZipArchive::by_index`, then `ZipFile::name`),
/// without reading its content: the name that [`zip_entry`] gives, where
/// the entry can be read.
#[verifier::external_body]
pub(crate) fn read_entry_name(archive: &mut zip::ZipArchive<std::io::Cursor<Vec<u8>>>, index: usize) -> (name: Result<String, OfficeError>)
    requires
        index < zip_entry_count(archive_source(*old(archive))),
    ensures
        archive_source(*final(archive)) == archive_source(*old(archive)),
        name matches Err(e) ==> e is Zip,
        name is Ok && zip_entry(archive_source(*old(archive)), index as nat) is Some ==> zip_entry(
            archive_source(*old(archive)),
            index as nat,
        ).unwrap().name == name->Ok_0@,
{
    let file = archive.by_index(index).map_err(|error| OfficeError::Zip(error.to_string()))?;
    let name = file.name().map_err(|error| OfficeError::Zip(error.to_string()))?.into_owned();
    Ok(name)
}

/// The options for writing entry `index` again as it was stored
/// (`ZipArchive::by_index`, then `ZipFile::options`). What the options hold
/// is not stated: they are handed on to the writer as they are.
#[verifier::external_body]
pub(crate) fn read_entry_options(archive: &mut zip::ZipArchive<std::io::Cursor<Vec<u8>>>, index: usize) -> (options: Result<EntryOptions, OfficeError>)
    requires
        index < zip_entry_count(archive_source(*old(archive))),
    ensures
        archive_source(*final(archive)) == archive_source(*old(archive)),
        options matches Err(e) ==> e is Zip,
{
    let file = archive.by_index(index).map_err(|error| OfficeError::Zip(error.to_string()))?;
    Ok(EntryOptions { options: file.options() })
}

/// The default options for writing an entry (`SimpleFileOptions::default`).
#[verifier::external_body]
pub(crate) fn default_entry_options() -> (options: EntryOptions) {
    EntryOptions { options: zip::write::SimpleFileOptions::default() }
}

/// The path inside an extraction directory that entry `index` names
/// (`ZipArchive::by_index`, then `ZipFile::enclosed_name`): `None` when the
/// name would lead out of the directory or cannot stand for a path there.
/// Which names give a path, and which path, depends on the platform and is
/// not stated, except that a name holding a NUL character gives none.
#[verifier::external_body]
pub(crate) fn entry_enclosed_name(archive: &mut zip::ZipArchive<std::io::Cursor<Vec<u8>>>, index: usize) -> (path: Result<Option<String>, OfficeError>)
    requires
        index < zip_entry_count(archive_source(*old(archive))),
    ensures
        archive_source(*final(archive)) == archive_source(*old(archive)),
        path matches Err(e) ==> e is Zip,
        (zip_entry(archive_source(*old(archive)), index as nat) matches Some(entry) && entry.name.contains('\0')) ==> !(
        path is Ok && path->Ok_0 is Some),
{
    let file = archive.by_index(index).map_err(|error| OfficeError::Zip(error.to_string()))?;
    match file.enclosed_name() {
        Some(path) => Ok(Some(path.to_string_lossy().into_owned())),
        None => Ok(None),
    }
}

/// The entries given to an archive writer so far, in order, each its name
/// and the content written under it.
pub uninterp spec fn archive_entries(writer: ArchiveWriter) -> Seq<(Seq<char>, Seq<u8>)>;

/// Whether the ZIP reader takes an entry of this name for a directory: the
/// name ends with `/` or `\`.
pub open spec fn directory_name(name: Seq<char>) -> bool {
    name.len() > 0 && (name.last() == '/' || name.last() == '\\')
}

/// A writer of a new archive in memory (`zip::ZipWriter::new`), holding no
/// entry yet.
#[verifier::external_body]
pub(crate) fn new_archive_writer() -> (writer: ArchiveWriter)
    ensures
        archive_entries(writer) == Seq::<(Seq<char>, Seq<u8>)>::empty(),
{
    ArchiveWriter { writer: zip::ZipWriter::new(std::io::Cursor::new(Vec::new())) }
}

/// Starts a file entry with default options (`ZipWriter::start_file`);
/// when it succeeds, the writer holds one more entry, of this name and with
/// no content yet.
#[verifier::external_body]
pub(crate) fn start_archive_file(writer: &mut ArchiveWriter, name: &str) -> (started: Result<(), OfficeError>)
    ensures
        started is Ok ==> archive_entries(*final(writer)) == archive_entries(*old(writer)).push((name@, Seq::empty())),
        started matches Err(e) ==> e is Zip,
{
    writer.writer.start_file(name, zip::write::SimpleFileOptions::default()).map_err(|error| OfficeError::Zip(error.to_string()))
}

/// Starts a file entry with the given options (`ZipWriter::start_file`);
/// when it succeeds, the writer holds one more entry, of this name and with
/// no content yet.
#[verifier::external_body]
pub(crate) fn start_archive_file_with(writer: &mut ArchiveWriter, name: &str, options: &EntryOptions) -> (started: Result<(), OfficeError>)
    ensures
        started is Ok ==> archive_entries(*final(writer)) == archive_entries(*old(writer)).push((name@, Seq::empty())),
        started matches Err(e) ==> e is Zip,
{
    writer.writer.start_file(name, options.options).map_err(|error| OfficeError::Zip(error.to_string()))
}

/// The name under which a directory entry is written: the name, with `/`
/// added unless it already ends with `/` or `\`.
pub open spec fn directory_entry_name(name: Seq<char>) -> Seq<char> {
    if directory_name(name) {
        name
    } else {
        name.push('/')
    }
}

/// Adds a directory entry with the given options (`ZipWriter::add_directory`);
/// when it succeeds, the writer holds one more entry, named as
/// [`directory_entry_name`] says and without content.
#[verifier::external_body]
pub(crate) fn add_archive_directory(writer: &mut ArchiveWriter, name: &str, options: &EntryOptions) -> (added: Result<(), OfficeError>)
    ensures
        added is Ok ==> archive_entries(*final(writer)) == archive_entries(*old(writer)).push(
            (directory_entry_name(name@), Seq::empty()),
        ),
        added matches Err(e) ==> e is Zip,
{
    writer.writer.add_directory(name, options.options).map_err(|error| OfficeError::Zip(error.to_string()))
}

/// Writes the content of the current entry (`Write::write_all`); when it
/// succeeds after an entry was started, the data is added to the content of
/// the last entry.
#[verifier::external_body]
pub(crate) fn write_archive_data(writer: &mut ArchiveWriter, data: &[u8]) -> (written: Result<(), OfficeError>)
    ensures
        ({
            let before = archive_entries(*old(writer));
            written is Ok && before.len() > 0 ==> archive_entries(*final(writer)) == before.update(
                before.len() - 1,
                (before.last().0, before.last().1 + data@),
            )
        }),
        written matches Err(e) ==> e is Io,
{
    writer.writer.write_all(data).map_err(|error| OfficeError::Io(error.to_string()))
}

/// Finishes the archive and hands back its bytes (`ZipWriter::finish`).
/// The claim is that the ZIP reader reads the bytes back as the entries
/// written: it opens them, lists as many entries, and gives each entry's
/// name and content as written, taking it for a directory exactly when its
/// name ends with `/` or `\`. Nothing is claimed of the bytes themselves,
/// which also hold the time of writing.
#[verifier::external_body]
pub(crate) fn finish_archive(writer: ArchiveWriter) -> (bytes: Result<Vec<u8>, OfficeError>)
    ensures
        bytes matches Err(e) ==> e is Zip,
        bytes matches Ok(b) ==> {
            let entries = archive_entries(writer);
            &&& zip_opens(b@)
            &&& zip_entry_count(b@) == entries.len()
            &&& forall|i: int|
                0 <= i < entries.len() ==> #[trigger] zip_entry(b@, i as nat) == Some(
                    ZipEntryView { name: entries[i].0, is_dir: directory_name(entries[i].0), content: entries[i].1 },
                )
        },
{
    writer.writer.finish().map(|cursor| cursor.into_inner()).map_err(|error| OfficeError::Zip(error.to_string()))
}

} // verus!
