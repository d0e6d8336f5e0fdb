//! The metadata of an Office document: core, extended and custom
//! properties.
use crate::keywords::strings_view;
use crate::text_map::TextMap;
use vstd::prelude::*;

verus! {

/// The view of an optional text.
pub open spec fn opt_text(o: Option<String>) -> Option<Seq<char>> {
    match o {
        Some(s) => Some(s@),
        None => None,
    }
}

/// A copy of an optional text.
pub fn copy_text(o: &Option<String>) -> (c: Option<String>)
    ensures
        opt_text(c) == opt_text(*o),
{
    match o {
        Some(s) => Some(s.clone()),
        None => None,
    }
}

/// A copy of a list of texts.
pub fn copy_texts(v: &Vec<String>) -> (c: Vec<String>)
    ensures
        strings_view(c@) == strings_view(v@),
{
    let mut c: Vec<String> = Vec::new();
    let mut i: usize = 0;
    while i < v.len()
        invariant
            i <= v.len(),
            strings_view(c@) == strings_view(v@).take(i as int),
        decreases v.len() - i,
    {
        let ghost before = c@;
        let item = v[i].clone();
        c.push(item);
        assert(strings_view(c@) =~= strings_view(before).push(item@));
        i = i + 1;
        assert(strings_view(c@) =~= strings_view(v@).take(i as int));
    }
    assert(strings_view(v@).take(v.len() as int) =~= strings_view(v@));
    c
}

/// A heading of the document outline with the number of parts under it.
#[derive(Debug)]
pub struct HeadingPair {
    pub name: String,
    pub count: u32,
}

/// The views of a list of heading pairs.
pub open spec fn heading_pairs_view(v: Seq<HeadingPair>) -> Seq<(Seq<char>, u32)> {
    v.map_values(|p: HeadingPair| (p.name@, p.count))
}
/// The core properties of a document (`docProps/core.xml`).
#[derive(Debug)]
pub struct CoreMetadata {
    pub category: Option<String>,
    pub content_status: Option<String>,
    pub content_type: Option<String>,
    pub created: Option<String>,
    pub creator: Option<String>,
    pub description: Option<String>,
    pub identifier: Option<String>,
    pub keywords: Vec<String>,
    pub language: Option<String>,
    pub last_modified_by: Option<String>,
    pub last_printed: Option<String>,
    pub modified: Option<String>,
    pub revision: Option<String>,
    pub subject: Option<String>,
    pub title: Option<String>,
    pub version: Option<String>,
}

/// The mathematical value of [`CoreMetadata`].
pub struct CoreView {
    pub category: Option<Seq<char>>,
    pub content_status: Option<Seq<char>>,
    pub content_type: Option<Seq<char>>,
    pub created: Option<Seq<char>>,
    pub creator: Option<Seq<char>>,
    pub description: Option<Seq<char>>,
    pub identifier: Option<Seq<char>>,
    pub keywords: Seq<Seq<char>>,
    pub language: Option<Seq<char>>,
    pub last_modified_by: Option<Seq<char>>,
    pub last_printed: Option<Seq<char>>,
    pub modified: Option<Seq<char>>,
    pub revision: Option<Seq<char>>,
    pub subject: Option<Seq<char>>,
    pub title: Option<Seq<char>>,
    pub version: Option<Seq<char>>,
}

impl View for CoreMetadata {
    type V = CoreView;

    open spec fn view(&self) -> CoreView {
        CoreView {
            category: opt_text(self.category),
            content_status: opt_text(self.content_status),
            content_type: opt_text(self.content_type),
            created: opt_text(self.created),
            creator: opt_text(self.creator),
            description: opt_text(self.description),
            identifier: opt_text(self.identifier),
            keywords: strings_view(self.keywords@),
            language: opt_text(self.language),
            last_modified_by: opt_text(self.last_modified_by),
            last_printed: opt_text(self.last_printed),
            modified: opt_text(self.modified),
            revision: opt_text(self.revision),
            subject: opt_text(self.subject),
            title: opt_text(self.title),
            version: opt_text(self.version),
        }
    }
}

/// The extended (application) properties of a document (`docProps/app.xml`).
#[derive(Debug)]
pub struct ExtendedMetadata {
    pub app_version: Option<String>,
    pub application: Option<String>,
    pub characters: Option<u32>,
    pub characters_with_spaces: Option<u32>,
    pub company: Option<String>,
    pub dig_sig: Option<String>,
    pub doc_security: Option<u32>,
    pub heading_pairs: Vec<HeadingPair>,
    pub hyperlinks_changed: Option<bool>,
    pub lines: Option<u32>,
    pub links_up_to_date: Option<bool>,
    pub pages: Option<u32>,
    pub paragraphs: Option<u32>,
    pub scale_crop: Option<bool>,
    pub shared_doc: Option<bool>,
    pub template: Option<String>,
    pub titles_of_parts: Vec<String>,
    pub total_time: Option<u32>,
    pub words: Option<u32>,
}

/// The mathematical value of [`ExtendedMetadata`].
pub struct ExtendedView {
    pub app_version: Option<Seq<char>>,
    pub application: Option<Seq<char>>,
    pub characters: Option<u32>,
    pub characters_with_spaces: Option<u32>,
    pub company: Option<Seq<char>>,
    pub dig_sig: Option<Seq<char>>,
    pub doc_security: Option<u32>,
    pub heading_pairs: Seq<(Seq<char>, u32)>,
    pub hyperlinks_changed: Option<bool>,
    pub lines: Option<u32>,
    pub links_up_to_date: Option<bool>,
    pub pages: Option<u32>,
    pub paragraphs: Option<u32>,
    pub scale_crop: Option<bool>,
    pub shared_doc: Option<bool>,
    pub template: Option<Seq<char>>,
    pub titles_of_parts: Seq<Seq<char>>,
    pub total_time: Option<u32>,
    pub words: Option<u32>,
}

impl View for ExtendedMetadata {
    type V = ExtendedView;

    open spec fn view(&self) -> ExtendedView {
        ExtendedView {
            app_version: opt_text(self.app_version),
            application: opt_text(self.application),
            characters: self.characters,
            characters_with_spaces: self.characters_with_spaces,
            company: opt_text(self.company),
            dig_sig: opt_text(self.dig_sig),
            doc_security: self.doc_security,
            heading_pairs: heading_pairs_view(self.heading_pairs@),
            hyperlinks_changed: self.hyperlinks_changed,
            lines: self.lines,
            links_up_to_date: self.links_up_to_date,
            pages: self.pages,
            paragraphs: self.paragraphs,
            scale_crop: self.scale_crop,
            shared_doc: self.shared_doc,
            template: opt_text(self.template),
            titles_of_parts: strings_view(self.titles_of_parts@),
            total_time: self.total_time,
            words: self.words,
        }
    }
}

/// All metadata of a document.
#[derive(Debug)]
pub struct OfficeMetadata {
    pub core: CoreMetadata,
    pub extended: ExtendedMetadata,
    /// Custom properties, by name.
    pub custom: TextMap<String>,
}

/// The view of a map of texts.
pub open spec fn text_map_view(m: TextMap<String>) -> Map<Seq<char>, Seq<char>> {
    Map::new(|k: Seq<char>| m.as_map().dom().contains(k), |k: Seq<char>| m.as_map()[k]@)
}

/// The mathematical value of [`OfficeMetadata`].
pub struct MetadataView {
    pub core: CoreView,
    pub extended: ExtendedView,
    pub custom: Map<Seq<char>, Seq<char>>,
}

impl View for OfficeMetadata {
    type V = MetadataView;

    open spec fn view(&self) -> MetadataView {
        MetadataView { core: self.core@, extended: self.extended@, custom: text_map_view(self.custom) }
    }
}

/// Core properties with every field unset.
pub open spec fn empty_core() -> CoreView {
    CoreView {
        category: None,
        content_status: None,
        content_type: None,
        created: None,
        creator: None,
        description: None,
        identifier: None,
        keywords: Seq::empty(),
        language: None,
        last_modified_by: None,
        last_printed: None,
        modified: None,
        revision: None,
        subject: None,
        title: None,
        version: None,
    }
}

/// Extended properties with every field unset.
pub open spec fn empty_extended() -> ExtendedView {
    ExtendedView {
        app_version: None,
        application: None,
        characters: None,
        characters_with_spaces: None,
        company: None,
        dig_sig: None,
        doc_security: None,
        heading_pairs: Seq::empty(),
        hyperlinks_changed: None,
        lines: None,
        links_up_to_date: None,
        pages: None,
        paragraphs: None,
        scale_crop: None,
        shared_doc: None,
        template: None,
        titles_of_parts: Seq::empty(),
        total_time: None,
        words: None,
    }
}

impl CoreMetadata {
    /// Core properties with every field unset.
    pub fn new() -> (m: CoreMetadata)
        ensures
            m@ == empty_core(),
    {
        let m = CoreMetadata {
            category: None,
            content_status: None,
            content_type: None,
            created: None,
            creator: None,
            description: None,
            identifier: None,
            keywords: Vec::new(),
            language: None,
            last_modified_by: None,
            last_printed: None,
            modified: None,
            revision: None,
            subject: None,
            title: None,
            version: None,
        };
        assert(m@.keywords =~= Seq::<Seq<char>>::empty());
        m
    }
}

impl ExtendedMetadata {
    /// Extended properties with every field unset.
    pub fn new() -> (m: ExtendedMetadata)
        ensures
            m@ == empty_extended(),
    {
        let m = ExtendedMetadata {
            app_version: None,
            application: None,
            characters: None,
            characters_with_spaces: None,
            company: None,
            dig_sig: None,
            doc_security: None,
            heading_pairs: Vec::new(),
            hyperlinks_changed: None,
            lines: None,
            links_up_to_date: None,
            pages: None,
            paragraphs: None,
            scale_crop: None,
            shared_doc: None,
            template: None,
            titles_of_parts: Vec::new(),
            total_time: None,
            words: None,
        };
        assert(m@.heading_pairs =~= Seq::<(Seq<char>, u32)>::empty());
        assert(m@.titles_of_parts =~= Seq::<Seq<char>>::empty());
        m
    }
}

impl OfficeMetadata {
    /// Metadata with every property unset and no custom properties.
    pub fn new() -> (m: OfficeMetadata)
        ensures
            m@.core == empty_core(),
            m@.extended == empty_extended(),
            m@.custom == Map::<Seq<char>, Seq<char>>::empty(),
    {
        let m = OfficeMetadata { core: CoreMetadata::new(), extended: ExtendedMetadata::new(), custom: TextMap::new() };
        assert(text_map_view(m.custom) =~= Map::<Seq<char>, Seq<char>>::empty());
        m
    }
}

impl Default for OfficeMetadata {
    fn default() -> (m: OfficeMetadata)
        ensures
            m@.core == empty_core(),
            m@.extended == empty_extended(),
            m@.custom == Map::<Seq<char>, Seq<char>>::empty(),
    {
        OfficeMetadata::new()
    }
}

impl Default for CoreMetadata {
    fn default() -> (m: CoreMetadata)
        ensures
            m@ == empty_core(),
    {
        CoreMetadata::new()
    }
}

impl Default for ExtendedMetadata {
    fn default() -> (m: ExtendedMetadata)
        ensures
            m@ == empty_extended(),
    {
        ExtendedMetadata::new()
    }
}

} // verus!
