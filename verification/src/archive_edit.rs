//! Editing and unpacking a document's archive entry by entry: recording a
//! source in its custom properties, and listing what to extract.
use crate::error::OfficeError;
use crate::package::archive_lists;
use crate::source_property::{
    add_source_items, items_view, pid_overflows, source_items, updated_custom_properties, ArchiveItem, ItemView,
};
use crate::word_text::is_named;
use crate::xml_reader::read_error;
use crate::zip_io::{
    add_archive_directory, archive_entries, archive_len, archive_source, default_entry_options, directory_entry_name,
    entry_enclosed_name, finish_archive, read_entry_name, new_archive_writer, open_archive, read_archive_entry, read_entry_options,
    start_archive_file_with, write_archive_data, zip_entry, zip_entry_count, zip_opens, EntryOptions,
};
use vstd::prelude::*;
use vstd::slice::slice_to_vec;

verus! {

/// The first `n` entries of the archive in `bytes`, as listed: `None` when
/// one of them cannot be read.
pub open spec fn archive_items_prefix(bytes: Seq<u8>, n: nat) -> Option<Seq<ItemView>>
    decreases n,
{
    if n == 0 {
        Some(Seq::empty())
    } else {
        match (archive_items_prefix(bytes, (n - 1) as nat), zip_entry(bytes, (n - 1) as nat)) {
            (Some(done), Some(e)) => Some(done.push(ItemView { name: e.name, is_dir: e.is_dir, content: e.content })),
            _ => None,
        }
    }
}

/// The entries of the archive in `bytes`, as listed: `None` when one of
/// them cannot be read.
pub open spec fn archive_items(bytes: Seq<u8>) -> Option<Seq<ItemView>> {
    archive_items_prefix(bytes, zip_entry_count(bytes))
}

proof fn lemma_archive_items_failed(bytes: Seq<u8>, n: nat, m: nat)
    requires
        0 < n <= m,
        archive_items_prefix(bytes, n) is None,
    ensures
        archive_items_prefix(bytes, m) is None,
    decreases m - n,
{
    if n < m {
        lemma_archive_items_failed(bytes, n, (m - 1) as nat);
    }
}

/// The name of the custom properties part inside an archive.
pub open spec fn custom_entry_name() -> Seq<char> {
    "docProps/custom.xml"@
}

/// The content of the first entry, from `from` on, named `name`.
pub open spec fn named_content(items: Seq<ItemView>, name: Seq<char>, from: int) -> Option<Seq<u8>>
    decreases items.len() - from,
{
    if from < 0 || from >= items.len() {
        None
    } else if items[from].name == name {
        Some(items[from].content)
    } else {
        named_content(items, name, from + 1)
    }
}

/// Whether an entry is written as a directory: a directory entry other
/// than the custom properties, the content types and the root
/// relationships, which are always written as files.
pub open spec fn written_as_directory(item: ItemView) -> bool {
    item.is_dir && item.name != custom_entry_name() && item.name != "[Content_Types].xml"@ && item.name
        != "_rels/.rels"@
}

/// The name and content an entry is written with.
pub open spec fn written_entry(item: ItemView) -> (Seq<char>, Seq<u8>) {
    if written_as_directory(item) {
        (directory_entry_name(item.name), Seq::empty())
    } else {
        (item.name, item.content)
    }
}

/// The names and contents a list of entries is written with.
pub open spec fn written_entries(items: Seq<ItemView>) -> Seq<(Seq<char>, Seq<u8>)> {
    items.map_values(|item: ItemView| written_entry(item))
}

/// The entries of an archive after recording a source in them, as
/// `add_source_items` gives them: `None` when the custom properties cannot
/// be read or a registered part is not UTF-8.
pub open spec fn source_result(items: Seq<ItemView>, source: Seq<char>) -> Option<Seq<ItemView>> {
    match updated_custom_properties(named_content(items, custom_entry_name(), 0), source) {
        Some(custom) => source_items(items, custom),
        None => None,
    }
}

/// Records a source in the custom properties of the document archive in
/// `archive`, as `add_source_items` does for its entries, and writes the
/// archive again: each entry with the options it was stored with, the
/// custom properties appended with default options when there were none.
/// `Ok(None)` when the source property's id would not fit an `i32`. The
/// options of the written entries are not stated.
pub fn add_source_to_archive(archive: &[u8], source: &str) -> (out: Result<Option<Vec<u8>>, OfficeError>)
    ensures
        !zip_opens(archive@) ==> (out matches Err(e) && e is Zip),
        zip_opens(archive@) ==> match archive_items(archive@) {
            None => out matches Err(e) && (e is Zip || e is Io),
            Some(items) => {
                let existing = named_content(items, custom_entry_name(), 0);
                if pid_overflows(existing, source@) {
                    out matches Ok(None)
                } else {
                    match updated_custom_properties(existing, source@) {
                        None => out matches Err(e) && (existing matches Some(x) && read_error(x, false, e)),
                        Some(custom) => match source_items(items, custom) {
                            None => out matches Err(e) && e is Io,
                            Some(expected) => match out {
                                Ok(Some(b)) => archive_lists(b@, written_entries(expected)),
                                Ok(None) => false,
                                Err(e) => e is Zip || e is Io,
                            },
                        },
                    }
                }
            },
        },
{
    let mut reader = open_archive(archive)?;
    let count = archive_len(&reader);
    let mut items: Vec<ArchiveItem> = Vec::new();
    let mut i: usize = 0;
    while i < count
        invariant
            i <= count,
            count == zip_entry_count(archive@),
            archive_source(reader) == archive@,
            zip_opens(archive@),
            archive_items_prefix(archive@, i as nat) == Some(items_view(items@)),
        decreases count - i,
    {
        let entry = match read_archive_entry(&mut reader, i) {
            Ok(entry) => entry,
            Err(error) => {
                proof {
                    lemma_archive_items_failed(archive@, (i + 1) as nat, count as nat);
                }
                return Err(error);
            },
        };
        let ghost before = items_view(items@);
        let item = ArchiveItem { name: entry.name, is_dir: entry.is_dir, content: entry.content };
        items.push(item);
        assert(items_view(items@) =~= before.push(item@));
        i = i + 1;
    }
    let ghost all = items_view(items@);
    assert(archive_items(archive@) == Some(all));
    let mut existing: Option<Vec<u8>> = None;
    let mut j: usize = 0;
    while j < items.len() && existing.is_none()
        invariant
            j <= items.len(),
            all == items_view(items@),
            existing is None ==> named_content(all, custom_entry_name(), 0) == named_content(
                all,
                custom_entry_name(),
                j as int,
            ),
            existing matches Some(x) ==> named_content(all, custom_entry_name(), 0) == Some(x@),
        decreases items.len() - j,
    {
        assert(all[j as int] == items@[j as int]@);
        proof {
            reveal_strlit("docProps/custom.xml");
        }
        if is_named(items[j].name.as_str(), "docProps/custom.xml") {
            existing = Some(slice_to_vec(items[j].content.as_slice()));
        }
        j = j + 1;
    }
    let ghost existing_view = named_content(all, custom_entry_name(), 0);
    assert(match existing {
        Some(x) => existing_view == Some(x@),
        None => existing_view is None,
    });
    let existing_ref: Option<&[u8]> = match &existing {
        Some(x) => Some(x.as_slice()),
        None => None,
    };
    let updated = match add_source_items(items, existing_ref, source)? {
        Some(updated) => updated,
        None => return Ok(None),
    };
    let ghost expected = items_view(updated@);
    assert(source_result(all, source@) == Some(expected));
    let mut options: Vec<EntryOptions> = Vec::new();
    let mut k: usize = 0;
    while k < count
        invariant
            k <= count,
            count == zip_entry_count(archive@),
            archive_source(reader) == archive@,
            options.len() == k,
            zip_opens(archive@),
            archive_items(archive@) == Some(all),
            !pid_overflows(named_content(all, custom_entry_name(), 0), source@),
            source_result(all, source@) == Some(expected),
        decreases count - k,
    {
        let entry_options = read_entry_options(&mut reader, k)?;
        options.push(entry_options);
        k = k + 1;
    }
    let default_options = default_entry_options();
    let mut writer = new_archive_writer();
    let mut w: usize = 0;
    assert(written_entries(expected).take(0) =~= Seq::<(Seq<char>, Seq<u8>)>::empty());
    while w < updated.len()
        invariant
            w <= updated.len(),
            expected == items_view(updated@),
            archive_entries(writer) == written_entries(expected).take(w as int),
            zip_opens(archive@),
            archive_items(archive@) == Some(all),
            !pid_overflows(named_content(all, custom_entry_name(), 0), source@),
            source_result(all, source@) == Some(expected),
        decreases updated.len() - w,
    {
        let item = &updated[w];
        assert(expected[w as int] == item@);
        let entry_options = if w < options.len() {
            &options[w]
        } else {
            &default_options
        };
        let registered = is_named(item.name.as_str(), "docProps/custom.xml") || is_named(
            item.name.as_str(),
            "[Content_Types].xml",
        ) || is_named(item.name.as_str(), "_rels/.rels");
        proof {
            reveal_strlit("docProps/custom.xml");
        }
        let ghost before = archive_entries(writer);
        if item.is_dir && !registered {
            add_archive_directory(&mut writer, item.name.as_str(), entry_options)?;
            assert(written_entries(expected).take(w + 1) =~= before.push(
                (directory_entry_name(item.name@), Seq::<u8>::empty()),
            ));
        } else {
            start_archive_file_with(&mut writer, item.name.as_str(), entry_options)?;
            write_archive_data(&mut writer, item.content.as_slice())?;
            assert(Seq::<u8>::empty() + item.content@ =~= item.content@);
            assert(written_entries(expected).take(w + 1) =~= before.push((item.name@, Seq::<u8>::empty())).update(
                w as int,
                (item.name@, Seq::<u8>::empty() + item.content@),
            ));
        }
        w = w + 1;
    }
    let bytes = finish_archive(writer)?;
    proof {
        assert(written_entries(expected).take(updated.len() as int) =~= written_entries(expected));
    }
    Ok(Some(bytes))
}

/// Whether `paths` can be the paths that `zip::ZipFile::enclosed_name`
/// gives for the entries of the archive in `bytes`: one for each entry;
/// every entry given a path can be read; an entry whose name holds a NUL
/// character is given none.
pub open spec fn enclosed_paths(bytes: Seq<u8>, paths: Seq<Option<Seq<char>>>) -> bool {
    &&& paths.len() == zip_entry_count(bytes)
    &&& forall|i: int| 0 <= i < paths.len() && #[trigger] paths[i] is Some ==> zip_entry(bytes, i as nat) is Some
    &&& forall|i: int| 0 <= i < paths.len() && #[trigger] nul_name(bytes, i as nat) ==> paths[i] is None
}

/// Whether entry `index` of the archive in `bytes` has a name holding a NUL
/// character.
pub open spec fn nul_name(bytes: Seq<u8>, index: nat) -> bool {
    zip_entry(bytes, index) matches Some(e) && e.name.contains('\0')
}

/// The entries to extract from the archive in `bytes`, given the paths of
/// its entries: each entry that has a path, in order, with that path,
/// whether it is a directory, and its content (none for a directory).
pub open spec fn kept_entries(bytes: Seq<u8>, paths: Seq<Option<Seq<char>>>) -> Seq<(Seq<char>, bool, Seq<u8>)>
    decreases paths.len(),
{
    if paths.len() == 0 {
        Seq::empty()
    } else {
        let front = kept_entries(bytes, paths.drop_last());
        match paths.last() {
            Some(p) => {
                let e = zip_entry(bytes, (paths.len() - 1) as nat).unwrap();
                front.push(
                    (
                        p,
                        e.is_dir,
                        if e.is_dir {
                            Seq::empty()
                        } else {
                            e.content
                        },
                    ),
                )
            },
            None => front,
        }
    }
}

/// The views of a list of entries to extract.
pub open spec fn unzipped_view(v: Seq<(String, bool, Vec<u8>)>) -> Seq<(Seq<char>, bool, Seq<u8>)> {
    v.map_values(|t: (String, bool, Vec<u8>)| (t.0@, t.1, t.2@))
}

/// The entries to extract from a document archive: every entry whose name
/// gives a path inside the extraction directory, with that path, whether it
/// is a directory, and its content; the entries whose names would lead out
/// of the directory are skipped.
pub fn unzip_entries(archive: &[u8]) -> (out: Result<Vec<(String, bool, Vec<u8>)>, OfficeError>)
    ensures
        !zip_opens(archive@) ==> (out matches Err(e) && e is Zip),
        out matches Err(e) ==> e is Zip || e is Io,
        out matches Ok(v) ==> zip_opens(archive@) && exists|paths: Seq<Option<Seq<char>>>|
            #[trigger] enclosed_paths(archive@, paths) && unzipped_view(v@) == kept_entries(archive@, paths),
{
    let mut reader = open_archive(archive)?;
    let count = archive_len(&reader);
    let mut out: Vec<(String, bool, Vec<u8>)> = Vec::new();
    let ghost mut paths: Seq<Option<Seq<char>>> = Seq::empty();
    let mut i: usize = 0;
    assert(unzipped_view(out@) =~= Seq::<(Seq<char>, bool, Seq<u8>)>::empty());
    while i < count
        invariant
            i <= count,
            count == zip_entry_count(archive@),
            archive_source(reader) == archive@,
            zip_opens(archive@),
            paths.len() == i,
            forall|j: int| 0 <= j < paths.len() && #[trigger] paths[j] is Some ==> zip_entry(archive@, j as nat) is Some,
            forall|j: int| 0 <= j < paths.len() && #[trigger] nul_name(archive@, j as nat) ==> paths[j] is None,
            unzipped_view(out@) == kept_entries(archive@, paths),
        decreases count - i,
    {
        let ghost before = unzipped_view(out@);
        let ghost old_paths = paths;
        match entry_enclosed_name(&mut reader, i)? {
            None => {
                proof {
                    paths = paths.push(None);
                    assert(paths.drop_last() =~= old_paths);
                }
            },
            Some(path) => {
                let entry = read_archive_entry(&mut reader, i)?;
                let content = if entry.is_dir {
                    Vec::new()
                } else {
                    entry.content
                };
                let ghost view = (path@, entry.is_dir, content@);
                out.push((path, entry.is_dir, content));
                proof {
                    paths = paths.push(Some(view.0));
                    assert(paths.drop_last() =~= old_paths);
                    assert(unzipped_view(out@) =~= before.push(view));
                }
            },
        }
        i = i + 1;
    }
    assert(enclosed_paths(archive@, paths));
    Ok(out)
}

/// The names of the entries of a document archive, in order.
pub fn archive_entry_names(archive: &[u8]) -> (names: Result<Vec<String>, OfficeError>)
    ensures
        !zip_opens(archive@) ==> (names matches Err(e) && e is Zip),
        names matches Err(e) ==> e is Zip,
        names matches Ok(v) ==> v.len() == zip_entry_count(archive@) && forall|i: int|
            0 <= i < v.len() && #[trigger] zip_entry(archive@, i as nat) is Some ==> zip_entry(
                archive@,
                i as nat,
            ).unwrap().name == v[i]@,
{
    let mut reader = open_archive(archive)?;
    let count = archive_len(&reader);
    let mut names: Vec<String> = Vec::new();
    let mut i: usize = 0;
    while i < count
        invariant
            i <= count,
            count == zip_entry_count(archive@),
            archive_source(reader) == archive@,
            names.len() == i,
            forall|j: int|
                0 <= j < names.len() && #[trigger] zip_entry(archive@, j as nat) is Some ==> zip_entry(
                    archive@,
                    j as nat,
                ).unwrap().name == names@[j]@,
        decreases count - i,
    {
        let name = read_entry_name(&mut reader, i)?;
        names.push(name);
        i = i + 1;
    }
    Ok(names)
}

} // verus!
