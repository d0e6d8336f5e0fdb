//! Partial updates of the editable metadata fields.
use crate::custom_props::{inserted_all, lemma_custom_entries, lemma_inserted_all_lists, lemma_inserted_all_merges};
use crate::error::OfficeError;
use crate::extended_props::set_or;
use crate::keywords::{keywords_of, split_keywords, strings_view};
use crate::metadata::{copy_text, copy_texts, opt_text, text_map_view, CoreView, MetadataView, OfficeMetadata};
use crate::text_map::TextMap;
use vstd::prelude::*;

verus! {

/// A partial update of the editable metadata fields.
///
/// Fields that are `None` leave the existing values unchanged. Custom
/// properties are merged into the existing ones, an incoming value replacing
/// one of the same name. Application-generated extended properties are not
/// part of a patch.
#[derive(Debug)]
pub struct MetadataPatch {
    pub category: Option<String>,
    pub content_status: Option<String>,
    pub content_type: Option<String>,
    pub creator: Option<String>,
    pub custom: Option<TextMap<String>>,
    pub description: Option<String>,
    pub identifier: Option<String>,
    pub keywords: Option<Vec<String>>,
    pub language: Option<String>,
    pub subject: Option<String>,
    pub title: Option<String>,
    pub version: Option<String>,
}

/// The mathematical value of a [`MetadataPatch`].
pub struct PatchView {
    pub category: Option<Seq<char>>,
    pub content_status: Option<Seq<char>>,
    pub content_type: Option<Seq<char>>,
    pub creator: Option<Seq<char>>,
    pub custom: Option<Map<Seq<char>, Seq<char>>>,
    pub description: Option<Seq<char>>,
    pub identifier: Option<Seq<char>>,
    pub keywords: Option<Seq<Seq<char>>>,
    pub language: Option<Seq<char>>,
    pub subject: Option<Seq<char>>,
    pub title: Option<Seq<char>>,
    pub version: Option<Seq<char>>,
}

impl View for MetadataPatch {
    type V = PatchView;

    open spec fn view(&self) -> PatchView {
        PatchView {
            category: opt_text(self.category),
            content_status: opt_text(self.content_status),
            content_type: opt_text(self.content_type),
            creator: opt_text(self.creator),
            custom: match self.custom {
                Some(c) => Some(text_map_view(c)),
                None => None,
            },
            description: opt_text(self.description),
            identifier: opt_text(self.identifier),
            keywords: match self.keywords {
                Some(k) => Some(strings_view(k@)),
                None => None,
            },
            language: opt_text(self.language),
            subject: opt_text(self.subject),
            title: opt_text(self.title),
            version: opt_text(self.version),
        }
    }
}

/// The patch that changes nothing.
pub open spec fn empty_patch() -> PatchView {
    PatchView {
        category: None,
        content_status: None,
        content_type: None,
        creator: None,
        custom: None,
        description: None,
        identifier: None,
        keywords: None,
        language: None,
        subject: None,
        title: None,
        version: None,
    }
}

/// The value given, or else the existing one.
pub open spec fn given_or<T>(given: Option<T>, existing: Option<T>) -> Option<T> {
    match given {
        Some(v) => Some(v),
        None => existing,
    }
}

/// Metadata after a patch: each given field replaces the existing value,
/// custom properties are merged with the patch's winning, and everything
/// else is kept.
pub open spec fn patched(m: MetadataView, p: PatchView) -> MetadataView {
    MetadataView {
        core: CoreView {
            category: given_or(p.category, m.core.category),
            content_status: given_or(p.content_status, m.core.content_status),
            content_type: given_or(p.content_type, m.core.content_type),
            creator: given_or(p.creator, m.core.creator),
            description: given_or(p.description, m.core.description),
            identifier: given_or(p.identifier, m.core.identifier),
            keywords: set_or(p.keywords, m.core.keywords),
            language: given_or(p.language, m.core.language),
            subject: given_or(p.subject, m.core.subject),
            title: given_or(p.title, m.core.title),
            version: given_or(p.version, m.core.version),
            ..m.core
        },
        extended: m.extended,
        custom: match p.custom {
            Some(c) => m.custom.union_prefer_right(c),
            None => m.custom,
        },
    }
}

fn take_given(given: Option<String>, existing: &Option<String>) -> (out: Option<String>)
    ensures
        opt_text(out) == given_or(opt_text(given), opt_text(*existing)),
{
    match given {
        Some(v) => Some(v),
        None => copy_text(existing),
    }
}

/// Merges custom properties into a map, the incoming values winning.
pub fn merge_custom(custom: &mut TextMap<String>, incoming: &TextMap<String>)
    ensures
        text_map_view(*final(custom)) == text_map_view(*old(custom)).union_prefer_right(text_map_view(*incoming)),
{
    proof {
        use_type_invariant(incoming);
        lemma_custom_entries(*incoming);
    }
    let ghost listed = incoming.entries().map_values(|e: (Seq<char>, String)| (e.0, e.1@));
    let ghost initial = text_map_view(*custom);
    let n = incoming.len();
    let mut i: usize = 0;
    assert(listed.take(0) =~= Seq::<(Seq<char>, Seq<char>)>::empty());
    while i < n
        invariant
            i <= n,
            n == incoming.size(),
            listed.len() == n,
            listed == incoming.entries().map_values(|e: (Seq<char>, String)| (e.0, e.1@)),
            text_map_view(*custom) == inserted_all(initial, listed.take(i as int)),
        decreases n - i,
    {
        let ghost before = *custom;
        let key = incoming.key_at(i);
        let value = incoming.value_at(i).clone();
        custom.insert(key.as_str(), value);
        proof {
            assert(text_map_view(*custom) =~= text_map_view(before).insert(key@, value@));
            assert(listed.take(i + 1).drop_last() =~= listed.take(i as int));
            assert(listed[i as int] == (key@, value@));
        }
        i = i + 1;
    }
    proof {
        assert(listed.take(n as int) =~= listed);
        lemma_inserted_all_merges(initial, listed);
        lemma_listed(*incoming);
        lemma_inserted_all_lists(listed, text_map_view(*incoming));
    }
}

proof fn lemma_listed(m: TextMap<String>)
    requires
        m.well_formed(),
    ensures
        crate::text_map::lists_map(
            m.entries().map_values(|e: (Seq<char>, String)| (e.0, e.1@)),
            text_map_view(m),
        ),
{
    m.lemma_shape();
    let listed = m.entries().map_values(|e: (Seq<char>, String)| (e.0, e.1@));
    let view = text_map_view(m);
    assert(crate::text_map::entry_keys(listed) =~= m.entries().map_values(|e: (Seq<char>, String)| e.0));
    assert forall|i: int| 0 <= i < listed.len() implies #[trigger] view.dom().contains(listed[i].0) && view[listed[i].0]
        == listed[i].1 by {
        assert(m.as_map().dom().contains(m.entries()[i].0));
    }
    assert forall|k: Seq<char>| #[trigger] view.dom().contains(k) implies exists|i: int|
        0 <= i < listed.len() && #[trigger] listed[i].0 == k by {
        let i = choose|i: int| 0 <= i < m.entries().len() && #[trigger] m.entries()[i].0 == k;
        assert(listed[i].0 == k);
    }
}

impl MetadataPatch {
    /// A patch that changes nothing.
    pub fn new() -> (patch: MetadataPatch)
        ensures
            patch@ == empty_patch(),
    {
        MetadataPatch {
            category: None,
            content_status: None,
            content_type: None,
            creator: None,
            custom: None,
            description: None,
            identifier: None,
            keywords: None,
            language: None,
            subject: None,
            title: None,
            version: None,
        }
    }

    /// Applies this patch, keeping the fields it does not provide and
    /// merging its custom properties into the existing ones.
    pub fn apply_to(self, metadata: &mut OfficeMetadata) -> (done: Result<(), OfficeError>)
        ensures
            done is Ok,
            final(metadata)@ == patched(old(metadata)@, self@),
    {
        let ghost p = self@;
        let core = &mut metadata.core;
        core.category = take_given(self.category, &core.category);
        core.content_status = take_given(self.content_status, &core.content_status);
        core.content_type = take_given(self.content_type, &core.content_type);
        core.creator = take_given(self.creator, &core.creator);
        match &self.custom {
            Some(incoming) => merge_custom(&mut metadata.custom, incoming),
            None => {},
        }
        let core = &mut metadata.core;
        core.description = take_given(self.description, &core.description);
        core.identifier = take_given(self.identifier, &core.identifier);
        core.keywords = match self.keywords {
            Some(k) => k,
            None => copy_texts(&core.keywords),
        };
        core.language = take_given(self.language, &core.language);
        core.subject = take_given(self.subject, &core.subject);
        core.title = take_given(self.title, &core.title);
        core.version = take_given(self.version, &core.version);
        Ok(())
    }
}

impl Default for MetadataPatch {
    fn default() -> (patch: MetadataPatch)
        ensures
            patch@ == empty_patch(),
    {
        MetadataPatch::new()
    }
}

/// Keywords as a patch may give them: a list, or comma-separated text.
pub enum KeywordsInput {
    List(Vec<String>),
    CommaSeparated(String),
}

/// The keywords that a keywords input stands for: a list as it is; text
/// split at commas, trimmed, without empty pieces.
pub fn keywords_from(input: KeywordsInput) -> (keywords: Vec<String>)
    ensures
        match input {
            KeywordsInput::List(list) => strings_view(keywords@) == strings_view(list@),
            KeywordsInput::CommaSeparated(text) => strings_view(keywords@) == keywords_of(text@),
        },
{
    match input {
        KeywordsInput::List(list) => list,
        KeywordsInput::CommaSeparated(text) => split_keywords(text.as_str()),
    }
}

/// Applying the empty patch changes nothing.
pub proof fn law_empty_patch_changes_nothing(m: MetadataView)
    ensures
        patched(m, empty_patch()) == m,
{
}

/// Applying a patch twice gives what applying it once gives.
pub proof fn law_patch_is_idempotent(m: MetadataView, p: PatchView)
    ensures
        patched(patched(m, p), p) == patched(m, p),
{
    match p.custom {
        Some(c) => {
            assert(m.custom.union_prefer_right(c).union_prefer_right(c) =~= m.custom.union_prefer_right(c));
        },
        None => {},
    }
}

/// A patch keeps the extended properties, the fields it cannot set, every
/// custom property it does not name, and sets every custom property it
/// names to its value.
pub proof fn law_patch_preserves_unpatched_fields(m: MetadataView, p: PatchView, name: Seq<char>)
    ensures
        patched(m, p).extended == m.extended,
        patched(m, p).core.created == m.core.created,
        patched(m, p).core.modified == m.core.modified,
        patched(m, p).core.last_modified_by == m.core.last_modified_by,
        patched(m, p).core.last_printed == m.core.last_printed,
        patched(m, p).core.revision == m.core.revision,
        p.title is None ==> patched(m, p).core.title == m.core.title,
        p.keywords is None ==> patched(m, p).core.keywords == m.core.keywords,
        (p.custom is None || !p.custom.unwrap().dom().contains(name)) && m.custom.dom().contains(name) ==> patched(
            m,
            p,
        ).custom.dom().contains(name) && patched(m, p).custom[name] == m.custom[name],
        p.custom is Some && p.custom.unwrap().dom().contains(name) ==> patched(m, p).custom.dom().contains(name)
            && patched(m, p).custom[name] == p.custom.unwrap()[name],
{
}

/// Each field that a patch gives replaces the metadata's value, and each
/// field it leaves out keeps the value the metadata had.
pub proof fn law_patch_sets_given_fields(m: MetadataView, p: PatchView)
    ensures
        p.title matches Some(v) ==> patched(m, p).core.title == Some(v),
        p.subject matches Some(v) ==> patched(m, p).core.subject == Some(v),
        p.creator matches Some(v) ==> patched(m, p).core.creator == Some(v),
        p.description matches Some(v) ==> patched(m, p).core.description == Some(v),
        p.category matches Some(v) ==> patched(m, p).core.category == Some(v),
        p.content_status matches Some(v) ==> patched(m, p).core.content_status == Some(v),
        p.content_type matches Some(v) ==> patched(m, p).core.content_type == Some(v),
        p.language matches Some(v) ==> patched(m, p).core.language == Some(v),
        p.identifier matches Some(v) ==> patched(m, p).core.identifier == Some(v),
        p.version matches Some(v) ==> patched(m, p).core.version == Some(v),
        p.keywords matches Some(k) ==> patched(m, p).core.keywords == k,
        p.title is None ==> patched(m, p).core.title == m.core.title,
        p.subject is None ==> patched(m, p).core.subject == m.core.subject,
        p.creator is None ==> patched(m, p).core.creator == m.core.creator,
        p.description is None ==> patched(m, p).core.description == m.core.description,
        p.category is None ==> patched(m, p).core.category == m.core.category,
        p.content_status is None ==> patched(m, p).core.content_status == m.core.content_status,
        p.content_type is None ==> patched(m, p).core.content_type == m.core.content_type,
        p.language is None ==> patched(m, p).core.language == m.core.language,
        p.identifier is None ==> patched(m, p).core.identifier == m.core.identifier,
        p.version is None ==> patched(m, p).core.version == m.core.version,
        p.keywords is None ==> patched(m, p).core.keywords == m.core.keywords,
        p.custom is None ==> patched(m, p).custom == m.custom,
{
}

} // verus!
