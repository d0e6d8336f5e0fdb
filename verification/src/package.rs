//! An OOXML package: the named parts of a ZIP archive, held in memory.
use crate::error::OfficeError;
use crate::part::{normalized_part_name, PartName};
use crate::text::seq_less;
use crate::text_map::{lemma_sorted_entries, lists_map, sorted_entries, strictly_sorted, TextMap};
use crate::zip_io::{
    archive_entries, archive_len, archive_source, directory_name, finish_archive, new_archive_writer, open_archive,
    read_archive_entry, start_archive_file, write_archive_data, zip_entry, zip_entry_count, zip_opens, ZipEntryView,
};
use vstd::prelude::*;

verus! {

/// The parts that the first `n` entries of an archive give: directories are
/// skipped, and each file is stored under its normalized name, a later entry
/// replacing an earlier one of the same name. `None` when an entry cannot be
/// read.
pub open spec fn entries_parts(bytes: Seq<u8>, n: nat) -> Option<Map<Seq<char>, Seq<u8>>>
    decreases n,
{
    if n == 0 {
        Some(Map::empty())
    } else {
        match entries_parts(bytes, (n - 1) as nat) {
            Some(parts) => match zip_entry(bytes, (n - 1) as nat) {
                Some(entry) => if entry.is_dir {
                    Some(parts)
                } else {
                    Some(parts.insert(normalized_part_name(entry.name), entry.content))
                },
                None => None,
            },
            None => None,
        }
    }
}

/// The parts of the archive held in `bytes`, or `None` when it is not a
/// readable archive.
pub open spec fn archive_parts(bytes: Seq<u8>) -> Option<Map<Seq<char>, Seq<u8>>> {
    if zip_opens(bytes) {
        entries_parts(bytes, zip_entry_count(bytes))
    } else {
        None
    }
}

/// The parts that the ZIP reader gives back from entries written in order:
/// directories are skipped, and each file is stored under its normalized
/// name, a later entry replacing an earlier one of the same name.
pub open spec fn reread_parts(entries: Seq<(Seq<char>, Seq<u8>)>) -> Map<Seq<char>, Seq<u8>>
    decreases entries.len(),
{
    if entries.len() == 0 {
        Map::empty()
    } else {
        let last = entries.last();
        if directory_name(last.0) {
            reread_parts(entries.drop_last())
        } else {
            reread_parts(entries.drop_last()).insert(normalized_part_name(last.0), last.1)
        }
    }
}

/// Bytes that the ZIP reader reads as the given entries, in order.
pub open spec fn archive_lists(bytes: Seq<u8>, entries: Seq<(Seq<char>, Seq<u8>)>) -> bool {
    &&& zip_opens(bytes)
    &&& zip_entry_count(bytes) == entries.len()
    &&& forall|i: int|
        0 <= i < entries.len() ==> #[trigger] zip_entry(bytes, i as nat) == Some(
            ZipEntryView { name: entries[i].0, is_dir: directory_name(entries[i].0), content: entries[i].1 },
        )
}

proof fn lemma_entries_parts_reread(bytes: Seq<u8>, entries: Seq<(Seq<char>, Seq<u8>)>, n: nat)
    requires
        archive_lists(bytes, entries),
        n <= entries.len(),
    ensures
        entries_parts(bytes, n) == Some(reread_parts(entries.take(n as int))),
    decreases n,
{
    if n == 0 {
        assert(entries.take(0) =~= Seq::<(Seq<char>, Seq<u8>)>::empty());
    } else {
        lemma_entries_parts_reread(bytes, entries, (n - 1) as nat);
        assert(zip_entry(bytes, (n - 1) as nat) == Some(
            ZipEntryView {
                name: entries[n - 1].0,
                is_dir: directory_name(entries[n - 1].0),
                content: entries[n - 1].1,
            },
        ));
        assert(entries.take(n as int).drop_last() =~= entries.take(n - 1));
        assert(entries.take(n as int).last() == entries[n - 1]);
    }
}

/// An OOXML package: a ZIP archive read into memory as named parts, with the
/// path it was opened from, if any.
#[derive(Debug)]
pub struct OoxmlPackage {
    source_path: Option<String>,
    parts: TextMap<Vec<u8>>,
}

impl OoxmlPackage {
    /// The parts, by name.
    pub closed spec fn contents(&self) -> Map<Seq<char>, Seq<u8>> {
        Map::new(|k: Seq<char>| self.parts.as_map().dom().contains(k), |k: Seq<char>| self.parts.as_map()[k]@)
    }

    /// The path the package was opened from.
    pub closed spec fn origin(&self) -> Option<Seq<char>> {
        match self.source_path {
            Some(p) => Some(p@),
            None => None,
        }
    }

    /// The part names in increasing lexicographic order.
    pub closed spec fn part_names(&self) -> Seq<Seq<char>> {
        self.parts.entries().map_values(|e: (Seq<char>, Vec<u8>)| e.0)
    }

    /// The part names are in strictly increasing order and are exactly the
    /// names of the package's parts.
    proof fn lemma_part_names(&self)
        requires
            self.parts.well_formed(),
        ensures
            strictly_sorted(self.part_names()),
            forall|k: Seq<char>| self.contents().dom().contains(k) <==> self.part_names().contains(k),
            self.contents().dom().finite(),
    {
        self.parts.lemma_shape();
        assert forall|k: Seq<char>| self.contents().dom().contains(k) <==> self.part_names().contains(k) by {
            if self.contents().dom().contains(k) {
                let i = choose|i: int| 0 <= i < self.parts.entries().len() && #[trigger] self.parts.entries()[i].0 == k;
                assert(self.part_names()[i] == k);
            }
            if self.part_names().contains(k) {
                let i = choose|i: int| 0 <= i < self.part_names().len() && self.part_names()[i] == k;
                assert(self.parts.entries()[i].0 == k);
            }
        }
        assert(self.contents().dom() =~= self.parts.as_map().dom());
    }

    /// Reads a package from the bytes of a ZIP archive, skipping directory
    /// entries; the package has no source path.
    pub fn from_bytes(bytes: &[u8]) -> (package: Result<OoxmlPackage, OfficeError>)
        ensures
            package is Ok <==> archive_parts(bytes@) is Some,
            package matches Ok(p) ==> archive_parts(bytes@) == Some(p.contents()) && p.origin() is None,
            package matches Err(e) ==> if zip_opens(bytes@) {
                e is Zip || e is Io
            } else {
                e is Zip
            },
    {
        let mut archive = open_archive(bytes)?;
        let count = archive_len(&archive);
        let mut parts: TextMap<Vec<u8>> = TextMap::new();
        let mut i: usize = 0;
        while i < count
            invariant
                i <= count,
                count == zip_entry_count(bytes@),
                archive_source(archive) == bytes@,
                zip_opens(bytes@),
                entries_parts(bytes@, i as nat) == Some(
                    Map::new(|k: Seq<char>| parts.as_map().dom().contains(k), |k: Seq<char>| parts.as_map()[k]@),
                ),
            decreases count - i,
        {
            let entry = match read_archive_entry(&mut archive, i) {
                Ok(entry) => entry,
                Err(error) => {
                    proof {
                        lemma_entries_parts_failed(bytes@, (i + 1) as nat, count as nat);
                    }
                    return Err(error);
                },
            };
            let ghost before = parts.as_map();
            if !entry.is_dir {
                let name = PartName::new(entry.name.as_str());
                parts.insert(name.as_str(), entry.content);
                proof {
                    assert(Map::new(|k: Seq<char>| parts.as_map().dom().contains(k), |k: Seq<char>| parts.as_map()[k]@)
                        =~= Map::new(|k: Seq<char>| before.dom().contains(k), |k: Seq<char>| before[k]@).insert(
                        normalized_part_name(entry.name@),
                        entry.content@,
                    ));
                }
            }
            i = i + 1;
        }
        let package = OoxmlPackage { source_path: None, parts };
        assert(package.contents() =~= Map::new(|k: Seq<char>| parts.as_map().dom().contains(k), |k: Seq<char>| parts.as_map()[k]@));
        Ok(package)
    }

    /// Reads a package from the bytes of a ZIP archive that was read from
    /// `path`.
    pub fn from_file_bytes(path: String, bytes: &[u8]) -> (package: Result<OoxmlPackage, OfficeError>)
        ensures
            package is Ok <==> archive_parts(bytes@) is Some,
            package matches Ok(p) ==> archive_parts(bytes@) == Some(p.contents()) && p.origin() == Some(path@),
            package matches Err(e) ==> if zip_opens(bytes@) {
                e is Zip || e is Io
            } else {
                e is Zip
            },
    {
        let package = OoxmlPackage::from_bytes(bytes)?;
        let OoxmlPackage { source_path: _, parts } = package;
        let with_path = OoxmlPackage { source_path: Some(path), parts };
        assert(with_path.contents() =~= package.contents());
        Ok(with_path)
    }

    /// The path the package was opened from, if any.
    pub fn source_path(&self) -> (path: Option<&str>)
        ensures
            match path {
                Some(p) => self.origin() == Some(p@),
                None => self.origin() is None,
            },
    {
        match &self.source_path {
            Some(p) => Some(p.as_str()),
            None => None,
        }
    }

    /// The names of the parts, in increasing lexicographic order.
    pub fn parts(&self) -> (names: Vec<PartName>)
        ensures
            names@.map_values(|n: PartName| n@) == self.part_names(),
            strictly_sorted(self.part_names()),
            forall|k: Seq<char>| self.contents().dom().contains(k) <==> self.part_names().contains(k),
    {
        proof {
            use_type_invariant(&self.parts);
            self.parts.lemma_shape();
            self.lemma_part_names();
        }
        let mut names: Vec<PartName> = Vec::new();
        let mut i: usize = 0;
        let n = self.parts.len();
        while i < n
            invariant
                i <= n,
                n == self.parts.size(),
                self.parts.entries().len() == self.parts.size(),
                names@.map_values(|n: PartName| n@) == self.part_names().take(i as int),
            decreases n - i,
        {
            let key = self.parts.key_at(i);
            let ghost before = names@;
            names.push(PartName::from_stored(key));
            assert(self.part_names()[i as int] == key@);
            assert(names@.map_values(|n: PartName| n@) =~= before.map_values(|n: PartName| n@).push(key@));
            assert(names@.map_values(|n: PartName| n@) =~= self.part_names().take(i + 1));
            i = i + 1;
        }
        assert(self.part_names().take(n as int) =~= self.part_names());
        names
    }

    /// Whether the package has a part of this name.
    pub fn contains_part(&self, part: &PartName) -> (found: bool)
        ensures
            found == self.contents().dom().contains(part@),
    {
        self.parts.contains_key(part.as_str())
    }

    /// The content of a part; an error names a missing part.
    pub fn read_part(&self, part: &PartName) -> (content: Result<&[u8], OfficeError>)
        ensures
            match content {
                Ok(c) => self.contents().dom().contains(part@) && c@ == self.contents()[part@],
                Err(e) => !self.contents().dom().contains(part@) && (e matches OfficeError::PartNotFound(p) && p@ == part@),
            },
    {
        match self.parts.get(part.as_str()) {
            Some(content) => Ok(content.as_slice()),
            None => Err(OfficeError::PartNotFound(part.copy())),
        }
    }

    /// Stores a part, replacing an earlier part of the same name.
    pub fn write_part(&mut self, part: PartName, content: Vec<u8>)
        ensures
            final(self).contents() == old(self).contents().insert(part@, content@),
            final(self).origin() == old(self).origin(),
    {
        let ghost before = self.contents();
        self.parts.insert(part.as_str(), content);
        assert(self.contents() =~= before.insert(part@, content@));
    }

    /// Removes a part; whether it was present.
    pub fn remove_part(&mut self, part: &PartName) -> (removed: bool)
        ensures
            final(self).contents() == old(self).contents().remove(part@),
            final(self).origin() == old(self).origin(),
            removed == old(self).contents().dom().contains(part@),
    {
        let ghost before = self.contents();
        let removed = self.parts.remove(part.as_str());
        assert(self.contents() =~= before.remove(part@));
        removed.is_some()
    }

    /// The parts with their contents, in increasing order of their names.
    pub closed spec fn part_entries(&self) -> Seq<(Seq<char>, Seq<u8>)> {
        self.parts.entries().map_values(|e: (Seq<char>, Vec<u8>)| (e.0, e.1@))
    }

    proof fn lemma_part_entries(&self)
        requires
            self.parts.well_formed(),
        ensures
            self.part_entries() == sorted_entries(self.contents()),
            self.part_entries().len() == self.parts.size(),
    {
        self.parts.lemma_shape();
        let listed = self.part_entries();
        let contents = self.contents();
        assert(crate::text_map::entry_keys(listed) =~= self.parts.entries().map_values(
            |e: (Seq<char>, Vec<u8>)| e.0,
        ));
        assert forall|i: int| 0 <= i < listed.len() implies #[trigger] contents.dom().contains(listed[i].0)
            && contents[listed[i].0] == listed[i].1 by {
            assert(self.parts.as_map().dom().contains(self.parts.entries()[i].0));
        }
        assert forall|k: Seq<char>| #[trigger] contents.dom().contains(k) implies exists|i: int|
            0 <= i < listed.len() && #[trigger] listed[i].0 == k by {
            let i = choose|i: int| 0 <= i < self.parts.entries().len() && #[trigger] self.parts.entries()[i].0 == k;
            assert(listed[i].0 == k);
        }
        assert(lists_map(listed, contents));
        lemma_sorted_entries(listed, contents);
    }

    /// The bytes of a ZIP archive holding the parts, written in increasing
    /// order of their names with default options. Read back, the archive
    /// gives the parts again, as the ZIP reader takes their names. The
    /// archive's bytes also depend on the time of writing, so nothing more
    /// is stated of them, and the writer may fail.
    pub fn to_bytes(&self) -> (bytes: Result<Vec<u8>, OfficeError>)
        ensures
            bytes matches Ok(b) ==> archive_parts(b@) == Some(reread_parts(sorted_entries(self.contents()))),
            bytes matches Err(e) ==> e is Zip || e is Io,
    {
        proof {
            use_type_invariant(&self.parts);
            self.lemma_part_entries();
        }
        let ghost entries = self.part_entries();
        let mut writer = new_archive_writer();
        let n = self.parts.len();
        let mut i: usize = 0;
        assert(entries.take(0) =~= Seq::<(Seq<char>, Seq<u8>)>::empty());
        while i < n
            invariant
                i <= n,
                n == self.parts.size(),
                entries == self.part_entries(),
                entries.len() == n,
                archive_entries(writer) == entries.take(i as int),
            decreases n - i,
        {
            let name = self.parts.key_at(i);
            let data = self.parts.value_at(i).as_slice();
            start_archive_file(&mut writer, name.as_str())?;
            write_archive_data(&mut writer, data)?;
            proof {
                assert(entries[i as int] == (name@, data@));
                assert(Seq::<u8>::empty() + data@ =~= data@);
                assert(entries.take(i + 1) =~= entries.take(i as int).push((name@, Seq::empty())).update(
                    i as int,
                    (name@, Seq::<u8>::empty() + data@),
                ));
            }
            i = i + 1;
        }
        let bytes = finish_archive(writer)?;
        proof {
            assert(entries.take(n as int) =~= entries);
            assert(archive_lists(bytes@, entries));
            lemma_entries_parts_reread(bytes@, entries, n as nat);
        }
        Ok(bytes)
    }
}

/// Writing a part and reading it back gives what was written; every other
/// part keeps its content, and no part appears or disappears but the one
/// written.
pub proof fn law_read_after_write(
    contents: Map<Seq<char>, Seq<u8>>,
    part: Seq<char>,
    content: Seq<u8>,
    other: Seq<char>,
)
    ensures
        contents.insert(part, content).dom().contains(part),
        contents.insert(part, content)[part] == content,
        other != part ==> (contents.insert(part, content).dom().contains(other) <==> contents.dom().contains(other)),
        other != part && contents.dom().contains(other) ==> contents.insert(part, content)[other] == contents[other],
{
}

/// Removing a part after writing it leaves the package as removing it
/// alone would, and a removed part is absent.
pub proof fn law_remove_after_write(contents: Map<Seq<char>, Seq<u8>>, part: Seq<char>, content: Seq<u8>)
    ensures
        contents.insert(part, content).remove(part) == contents.remove(part),
        !contents.remove(part).dom().contains(part),
{
    assert(contents.insert(part, content).remove(part) =~= contents.remove(part));
}

/// Once an entry cannot be read, the archive gives no parts.
proof fn lemma_entries_parts_failed(bytes: Seq<u8>, n: nat, m: nat)
    requires
        0 < n <= m,
        entries_parts(bytes, n) is None,
    ensures
        entries_parts(bytes, m) is None,
    decreases m - n,
{
    if n < m {
        lemma_entries_parts_failed(bytes, n, (m - 1) as nat);
    }
}


/// Part names that the ZIP reader gives back as they are: none is taken for
/// a directory, and each is its own normalized name.
pub open spec fn archive_safe(contents: Map<Seq<char>, Seq<u8>>) -> bool {
    forall|k: Seq<char>| #[trigger] contents.dom().contains(k) ==> !directory_name(k) && normalized_part_name(k) == k
}

proof fn lemma_reread_lists(entries: Seq<(Seq<char>, Seq<u8>)>, m: Map<Seq<char>, Seq<u8>>)
    requires
        lists_map(entries, m),
        archive_safe(m),
    ensures
        reread_parts(entries) == m,
    decreases entries.len(),
{
    let keys = crate::text_map::entry_keys(entries);
    if entries.len() == 0 {
        assert forall|k: Seq<char>| !m.dom().contains(k) by {
            if m.dom().contains(k) {
                let i = choose|i: int| 0 <= i < entries.len() && #[trigger] entries[i].0 == k;
            }
        }
        assert(m =~= Map::empty());
    } else {
        let n = entries.len() - 1;
        let k = entries[n].0;
        let prefix = entries.drop_last();
        let rest = m.remove(k);
        assert(m.dom().contains(k));
        assert(crate::text_map::entry_keys(prefix) =~= keys.drop_last());
        assert forall|i: int| 0 <= i < prefix.len() implies #[trigger] rest.dom().contains(prefix[i].0) && rest[prefix[i].0]
            == prefix[i].1 by {
            assert(keys[i] == prefix[i].0);
            assert(keys[n] == k);
            assert(crate::text::seq_less(keys[i], keys[n]));
            crate::text::lemma_seq_less_irreflexive(k);
            assert(m.dom().contains(entries[i].0));
        }
        assert forall|key: Seq<char>| #[trigger] rest.dom().contains(key) implies exists|i: int|
            0 <= i < prefix.len() && #[trigger] prefix[i].0 == key by {
            assert(m.dom().contains(key));
            let i = choose|i: int| 0 <= i < entries.len() && #[trigger] entries[i].0 == key;
            assert(i != n);
            assert(prefix[i].0 == key);
        }
        assert forall|key: Seq<char>| #[trigger] rest.dom().contains(key) implies !directory_name(key)
            && normalized_part_name(key) == key by {
            assert(m.dom().contains(key));
        }
        lemma_reread_lists(prefix, rest);
        assert(reread_parts(entries) =~= m);
    }
}

/// Saving a package and reading the bytes back gives the same parts, when
/// the ZIP reader takes each part name as it is.
pub proof fn law_saved_package_reads_back(contents: Map<Seq<char>, Seq<u8>>)
    requires
        contents.dom().finite(),
        archive_safe(contents),
    ensures
        reread_parts(sorted_entries(contents)) == contents,
{
    crate::text_map::lemma_sorted_entries_list(contents);
    lemma_reread_lists(sorted_entries(contents), contents);
}

} // verus!
