//! What generated core properties read back as.
use crate::core_props::{core_applied, core_events, core_root_attributes, core_with, joined_with, timestamp_attributes};
use crate::elements::{
    elements_run, elements_start, elements_step, events_elements, inside_root, lemma_elements_fold_run,
    lemma_elements_run_append, lemma_elements_run_one, lemma_optional_pieces_run, lemma_text_element_pieces_run,
    named_value,
};
use crate::reader_pieces::{lemma_reader_events_append, lemma_reader_events_one, reader_events, references_resolve};
use crate::keywords::{
    comma_pieces, is_white_space, keywords_of, lemma_comma_pieces_append, lemma_comma_pieces_single,
    nonblank_trimmed, trimmed, trimmed_end, trimmed_start,
};
use crate::metadata::{empty_core, CoreView};
use crate::xml::EventView;
use crate::xml_build::{optional_element, standalone_declaration, text_element};
use crate::xml_text::{lemma_local_name_at, local_name};
use vstd::prelude::*;

verus! {

proof fn lemma_core_local_names()
    ensures
        local_name("dc:title"@) == "title"@,
        local_name("dc:subject"@) == "subject"@,
        local_name("dc:creator"@) == "creator"@,
        local_name("cp:lastModifiedBy"@) == "lastModifiedBy"@,
        local_name("dc:description"@) == "description"@,
        local_name("cp:keywords"@) == "keywords"@,
        local_name("cp:category"@) == "category"@,
        local_name("cp:contentStatus"@) == "contentStatus"@,
        local_name("cp:contentType"@) == "contentType"@,
        local_name("dc:language"@) == "language"@,
        local_name("dcterms:created"@) == "created"@,
        local_name("dcterms:modified"@) == "modified"@,
        local_name("cp:lastPrinted"@) == "lastPrinted"@,
        local_name("cp:revision"@) == "revision"@,
        local_name("dc:identifier"@) == "identifier"@,
        local_name("cp:version"@) == "version"@,
{
    reveal_strlit("dc:title");
    reveal_strlit("title");
    lemma_local_name_at("dc:title"@, 2);
    assert("dc:title"@.skip(3) =~= "title"@);
    reveal_strlit("dc:subject");
    reveal_strlit("subject");
    lemma_local_name_at("dc:subject"@, 2);
    assert("dc:subject"@.skip(3) =~= "subject"@);
    reveal_strlit("dc:creator");
    reveal_strlit("creator");
    lemma_local_name_at("dc:creator"@, 2);
    assert("dc:creator"@.skip(3) =~= "creator"@);
    reveal_strlit("cp:lastModifiedBy");
    reveal_strlit("lastModifiedBy");
    lemma_local_name_at("cp:lastModifiedBy"@, 2);
    assert("cp:lastModifiedBy"@.skip(3) =~= "lastModifiedBy"@);
    reveal_strlit("dc:description");
    reveal_strlit("description");
    lemma_local_name_at("dc:description"@, 2);
    assert("dc:description"@.skip(3) =~= "description"@);
    reveal_strlit("cp:keywords");
    reveal_strlit("keywords");
    lemma_local_name_at("cp:keywords"@, 2);
    assert("cp:keywords"@.skip(3) =~= "keywords"@);
    reveal_strlit("cp:category");
    reveal_strlit("category");
    lemma_local_name_at("cp:category"@, 2);
    assert("cp:category"@.skip(3) =~= "category"@);
    reveal_strlit("cp:contentStatus");
    reveal_strlit("contentStatus");
    lemma_local_name_at("cp:contentStatus"@, 2);
    assert("cp:contentStatus"@.skip(3) =~= "contentStatus"@);
    reveal_strlit("cp:contentType");
    reveal_strlit("contentType");
    lemma_local_name_at("cp:contentType"@, 2);
    assert("cp:contentType"@.skip(3) =~= "contentType"@);
    reveal_strlit("dc:language");
    reveal_strlit("language");
    lemma_local_name_at("dc:language"@, 2);
    assert("dc:language"@.skip(3) =~= "language"@);
    reveal_strlit("dcterms:created");
    reveal_strlit("created");
    lemma_local_name_at("dcterms:created"@, 7);
    assert("dcterms:created"@.skip(8) =~= "created"@);
    reveal_strlit("dcterms:modified");
    reveal_strlit("modified");
    lemma_local_name_at("dcterms:modified"@, 7);
    assert("dcterms:modified"@.skip(8) =~= "modified"@);
    reveal_strlit("cp:lastPrinted");
    reveal_strlit("lastPrinted");
    lemma_local_name_at("cp:lastPrinted"@, 2);
    assert("cp:lastPrinted"@.skip(3) =~= "lastPrinted"@);
    reveal_strlit("cp:revision");
    reveal_strlit("revision");
    lemma_local_name_at("cp:revision"@, 2);
    assert("cp:revision"@.skip(3) =~= "revision"@);
    reveal_strlit("dc:identifier");
    reveal_strlit("identifier");
    lemma_local_name_at("dc:identifier"@, 2);
    assert("dc:identifier"@.skip(3) =~= "identifier"@);
    reveal_strlit("cp:version");
    reveal_strlit("version");
    lemma_local_name_at("cp:version"@, 2);
    assert("cp:version"@.skip(3) =~= "version"@);
}


/// A keyword that reads back from the generated keywords text as it is:
/// not empty, without commas and without white space at either end.
pub open spec fn readable_keyword(k: Seq<char>) -> bool {
    &&& k.len() > 0
    &&& !k.contains(',')
    &&& !is_white_space(k[0])
    &&& !is_white_space(k.last())
}

proof fn lemma_trimmed_keyword(k: Seq<char>)
    requires
        k.len() > 0,
        !is_white_space(k[0]),
        !is_white_space(k.last()),
    ensures
        trimmed(k) == k,
        trimmed(seq![' '] + k) == k,
{
    assert(trimmed_start(k) == k);
    assert(trimmed_end(k) == k);
    let b = seq![' '] + k;
    assert(is_white_space(b[0]));
    assert(b.drop_first() =~= k);
    assert(trimmed_start(b) == trimmed_start(k));
}

/// Keywords read back from the text they are joined into.
proof fn lemma_keywords_of_joined(kw: Seq<Seq<char>>)
    requires
        forall|i: int| 0 <= i < kw.len() ==> readable_keyword(#[trigger] kw[i]),
    ensures
        keywords_of(joined_with(kw, ", "@)) == kw,
    decreases kw.len(),
{
    reveal_strlit(", ");
    if kw.len() == 0 {
        lemma_comma_pieces_single(Seq::empty());
        assert(trimmed(Seq::<char>::empty()) == Seq::<char>::empty());
        assert(seq![Seq::<char>::empty()].drop_last() =~= Seq::<Seq<char>>::empty());
        assert(seq![Seq::<char>::empty()].last() == Seq::<char>::empty());
        assert(nonblank_trimmed(Seq::<Seq<char>>::empty()) == Seq::<Seq<char>>::empty());
        assert(nonblank_trimmed(seq![Seq::<char>::empty()]) == nonblank_trimmed(Seq::<Seq<char>>::empty()));
        assert(kw =~= Seq::<Seq<char>>::empty());
    } else if kw.len() == 1 {
        assert(readable_keyword(kw[0]));
        lemma_comma_pieces_single(kw[0]);
        lemma_trimmed_keyword(kw[0]);
        assert(seq![kw[0]].drop_last() =~= Seq::<Seq<char>>::empty());
        assert(seq![kw[0]].last() == kw[0]);
        assert(nonblank_trimmed(Seq::<Seq<char>>::empty()) == Seq::<Seq<char>>::empty());
        assert(joined_with(kw, ", "@) == kw[0]);
        assert(Seq::<Seq<char>>::empty().push(kw[0]) =~= kw);
    } else {
        let front = kw.drop_last();
        let last = kw.last();
        assert(readable_keyword(last));
        assert forall|i: int| 0 <= i < front.len() implies readable_keyword(#[trigger] front[i]) by {
            assert(front[i] == kw[i]);
        }
        lemma_keywords_of_joined(front);
        let a = joined_with(front, ", "@);
        let b = seq![' '] + last;
        assert(joined_with(kw, ", "@) =~= a + seq![','] + b);
        assert(!b.contains(',')) by {
            if b.contains(',') {
                let i = choose|i: int| 0 <= i < b.len() && b[i] == ',';
                assert(i > 0);
                assert(last[i - 1] == ',');
                assert(last.contains(','));
            }
        }
        lemma_comma_pieces_append(a, b, 0);
        crate::keywords::lemma_nonblank_append(comma_pieces(a, 0), seq![b]);
        lemma_trimmed_keyword(last);
        assert(seq![b].drop_last() =~= Seq::<Seq<char>>::empty());
        assert(seq![b].last() == b);
        assert(nonblank_trimmed(Seq::<Seq<char>>::empty()) == Seq::<Seq<char>>::empty());
        assert(nonblank_trimmed(seq![b]) =~= seq![last]);
        assert(front + seq![last] =~= kw);
    }
}


/// Each known name sets its core property.
proof fn lemma_core_with_names(c: CoreView, v: Seq<char>)
    ensures
        core_with(c, "title"@, v) == (CoreView { title: Some(v), ..c }),
        core_with(c, "subject"@, v) == (CoreView { subject: Some(v), ..c }),
        core_with(c, "creator"@, v) == (CoreView { creator: Some(v), ..c }),
        core_with(c, "lastModifiedBy"@, v) == (CoreView { last_modified_by: Some(v), ..c }),
        core_with(c, "description"@, v) == (CoreView { description: Some(v), ..c }),
        core_with(c, "keywords"@, v) == (CoreView { keywords: keywords_of(v), ..c }),
        core_with(c, "category"@, v) == (CoreView { category: Some(v), ..c }),
        core_with(c, "contentStatus"@, v) == (CoreView { content_status: Some(v), ..c }),
        core_with(c, "contentType"@, v) == (CoreView { content_type: Some(v), ..c }),
        core_with(c, "language"@, v) == (CoreView { language: Some(v), ..c }),
        core_with(c, "created"@, v) == (CoreView { created: Some(v), ..c }),
        core_with(c, "modified"@, v) == (CoreView { modified: Some(v), ..c }),
        core_with(c, "lastPrinted"@, v) == (CoreView { last_printed: Some(v), ..c }),
        core_with(c, "revision"@, v) == (CoreView { revision: Some(v), ..c }),
        core_with(c, "identifier"@, v) == (CoreView { identifier: Some(v), ..c }),
        core_with(c, "version"@, v) == (CoreView { version: Some(v), ..c }),
{
    reveal_strlit("title");
    reveal_strlit("subject");
    reveal_strlit("creator");
    reveal_strlit("lastModifiedBy");
    reveal_strlit("description");
    reveal_strlit("keywords");
    reveal_strlit("category");
    reveal_strlit("contentStatus");
    reveal_strlit("contentType");
    reveal_strlit("language");
    reveal_strlit("created");
    reveal_strlit("modified");
    reveal_strlit("lastPrinted");
    reveal_strlit("revision");
    reveal_strlit("identifier");
    reveal_strlit("version");
    assert("title"@[0] == 't');
    assert("subject"@[0] == 's');
    assert("creator"@[0] == 'c');
    assert("lastModifiedBy"@[0] == 'l');
    assert("description"@[0] == 'd');
    assert("keywords"@[0] == 'k');
    assert("category"@[0] == 'c');
    assert("contentStatus"@[0] == 'c');
    assert("contentType"@[0] == 'c');
    assert("language"@[0] == 'l');
    assert("created"@[0] == 'c');
    assert("modified"@[0] == 'm');
    assert("lastPrinted"@[0] == 'l');
    assert("revision"@[0] == 'r');
    assert("identifier"@[0] == 'i');
    assert("version"@[0] == 'v');
    assert("created"@[5] == 'e');
    assert("creator"@[5] == 'o');
    assert("creator"@[1] == 'r');
    assert("category"@[1] == 'a');
    assert("contentStatus"@[1] == 'o');
    assert("contentStatus"@[7] == 'S');
    assert("contentType"@[1] == 'o');
    assert("contentType"@[7] == 'T');
    assert("created"@[1] == 'r');
    assert("language"@[2] == 'n');
    assert("lastModifiedBy"@[2] == 's');
    assert("lastModifiedBy"@[4] == 'M');
    assert("lastPrinted"@[2] == 's');
    assert("lastPrinted"@[4] == 'P');
}

/// Core properties after a list of elements and then a named value.
proof fn lemma_core_applied_named(
    c: CoreView,
    elements: Seq<(Seq<char>, Seq<char>)>,
    name: Seq<char>,
    value: Option<Seq<char>>,
)
    ensures
        core_applied(c, elements + named_value(name, value)) == (match value {
            Some(v) => if v.len() > 0 {
                core_with(core_applied(c, elements), name, v)
            } else {
                core_applied(c, elements)
            },
            None => core_applied(c, elements),
        }),
{
    match value {
        Some(v) => {
            if v.len() > 0 {
                let e = elements + seq![(name, v)];
                assert(e.drop_last() =~= elements);
                assert(e.last() == (name, v));
            } else {
                assert(elements + Seq::<(Seq<char>, Seq<char>)>::empty() =~= elements);
            }
        },
        None => {
            assert(elements + Seq::<(Seq<char>, Seq<char>)>::empty() =~= elements);
        },
    }
}


proof fn lemma_core_with_all()
    ensures
        forall|c: CoreView, v: Seq<char>|
            #![trigger core_with(c, "title"@, v)]
            #![trigger core_with(c, "subject"@, v)]
            #![trigger core_with(c, "creator"@, v)]
            #![trigger core_with(c, "lastModifiedBy"@, v)]
            #![trigger core_with(c, "description"@, v)]
            #![trigger core_with(c, "keywords"@, v)]
            #![trigger core_with(c, "category"@, v)]
            #![trigger core_with(c, "contentStatus"@, v)]
            #![trigger core_with(c, "contentType"@, v)]
            #![trigger core_with(c, "language"@, v)]
            #![trigger core_with(c, "created"@, v)]
            #![trigger core_with(c, "modified"@, v)]
            #![trigger core_with(c, "lastPrinted"@, v)]
            #![trigger core_with(c, "revision"@, v)]
            #![trigger core_with(c, "identifier"@, v)]
            #![trigger core_with(c, "version"@, v)]
{
            &&& core_with(c, "title"@, v) == (CoreView { title: Some(v), ..c })
            &&& core_with(c, "subject"@, v) == (CoreView { subject: Some(v), ..c })
            &&& core_with(c, "creator"@, v) == (CoreView { creator: Some(v), ..c })
            &&& core_with(c, "lastModifiedBy"@, v) == (CoreView { last_modified_by: Some(v), ..c })
            &&& core_with(c, "description"@, v) == (CoreView { description: Some(v), ..c })
            &&& core_with(c, "keywords"@, v) == (CoreView { keywords: keywords_of(v), ..c })
            &&& core_with(c, "category"@, v) == (CoreView { category: Some(v), ..c })
            &&& core_with(c, "contentStatus"@, v) == (CoreView { content_status: Some(v), ..c })
            &&& core_with(c, "contentType"@, v) == (CoreView { content_type: Some(v), ..c })
            &&& core_with(c, "language"@, v) == (CoreView { language: Some(v), ..c })
            &&& core_with(c, "created"@, v) == (CoreView { created: Some(v), ..c })
            &&& core_with(c, "modified"@, v) == (CoreView { modified: Some(v), ..c })
            &&& core_with(c, "lastPrinted"@, v) == (CoreView { last_printed: Some(v), ..c })
            &&& core_with(c, "revision"@, v) == (CoreView { revision: Some(v), ..c })
            &&& core_with(c, "identifier"@, v) == (CoreView { identifier: Some(v), ..c })
            &&& core_with(c, "version"@, v) == (CoreView { version: Some(v), ..c })
        },
{
    assert forall|c: CoreView, v: Seq<char>| {
        &&& core_with(c, "title"@, v) == (CoreView { title: Some(v), ..c })
        &&& core_with(c, "subject"@, v) == (CoreView { subject: Some(v), ..c })
        &&& core_with(c, "creator"@, v) == (CoreView { creator: Some(v), ..c })
        &&& core_with(c, "lastModifiedBy"@, v) == (CoreView { last_modified_by: Some(v), ..c })
        &&& core_with(c, "description"@, v) == (CoreView { description: Some(v), ..c })
        &&& core_with(c, "keywords"@, v) == (CoreView { keywords: keywords_of(v), ..c })
        &&& core_with(c, "category"@, v) == (CoreView { category: Some(v), ..c })
        &&& core_with(c, "contentStatus"@, v) == (CoreView { content_status: Some(v), ..c })
        &&& core_with(c, "contentType"@, v) == (CoreView { content_type: Some(v), ..c })
        &&& core_with(c, "language"@, v) == (CoreView { language: Some(v), ..c })
        &&& core_with(c, "created"@, v) == (CoreView { created: Some(v), ..c })
        &&& core_with(c, "modified"@, v) == (CoreView { modified: Some(v), ..c })
        &&& core_with(c, "lastPrinted"@, v) == (CoreView { last_printed: Some(v), ..c })
        &&& core_with(c, "revision"@, v) == (CoreView { revision: Some(v), ..c })
        &&& core_with(c, "identifier"@, v) == (CoreView { identifier: Some(v), ..c })
        &&& core_with(c, "version"@, v) == (CoreView { version: Some(v), ..c })
    } by {
        lemma_core_with_names(c, v);
    }
}

/// A set value that reads back as it is: one that is not empty.
pub open spec fn readable_value(value: Option<Seq<char>>) -> bool {
    value matches Some(v) ==> v.len() > 0
}

/// Core properties that read back from their generated events as they are.
pub open spec fn readable_core(core: CoreView) -> bool {
    &&& readable_value(core.title)
    &&& readable_value(core.subject)
    &&& readable_value(core.creator)
    &&& readable_value(core.last_modified_by)
    &&& readable_value(core.description)
    &&& readable_value(core.category)
    &&& readable_value(core.content_status)
    &&& readable_value(core.content_type)
    &&& readable_value(core.language)
    &&& readable_value(core.created)
    &&& readable_value(core.modified)
    &&& readable_value(core.last_printed)
    &&& readable_value(core.revision)
    &&& readable_value(core.identifier)
    &&& readable_value(core.version)
    &&& forall|i: int| 0 <= i < core.keywords.len() ==> readable_keyword(#[trigger] core.keywords[i])
}

/// The text elements of generated core properties: the local name and
/// value of each set property that is not empty, in the order written.
pub open spec fn core_elements(core: CoreView) -> Seq<(Seq<char>, Seq<char>)> {
    Seq::empty() + named_value("title"@, core.title)
        + named_value("subject"@, core.subject)
        + named_value("creator"@, core.creator)
        + named_value("lastModifiedBy"@, core.last_modified_by)
        + named_value("description"@, core.description)
        + (if core.keywords.len() > 0 {
        seq![("keywords"@, joined_with(core.keywords, ", "@))]
    } else {
        Seq::empty()
    })
        + named_value("category"@, core.category)
        + named_value("contentStatus"@, core.content_status)
        + named_value("contentType"@, core.content_type)
        + named_value("language"@, core.language)
        + named_value("created"@, core.created)
        + named_value("modified"@, core.modified)
        + named_value("lastPrinted"@, core.last_printed)
        + named_value("revision"@, core.revision)
        + named_value("identifier"@, core.identifier)
        + named_value("version"@, core.version)
}

/// Collecting the text elements of generated core properties, as the
/// reader splits their text at references, gives the elements written.
proof fn lemma_core_events_elements(core: CoreView)
    requires
        references_resolve(),
    ensures
        events_elements(reader_events(core_events(core))) == Some(core_elements(core)),
{
    lemma_core_local_names();
    let start = Some(elements_start());
    let none = Seq::<char>::empty();
    let d = standalone_declaration();
    let r = EventView::Start("cp:coreProperties"@, core_root_attributes());
    let p0 = seq![d, r];
    assert(p0 =~= seq![d] + seq![r]);
    lemma_reader_events_append(seq![d], seq![r]);
    lemma_reader_events_one(d);
    lemma_reader_events_one(r);
    assert(reader_events(p0) =~= p0);
    lemma_elements_run_append(start, seq![d], seq![r]);
    lemma_elements_run_one(start, d);
    lemma_elements_run_one(elements_step(start, d), r);
    let e0 = Seq::<(Seq<char>, Seq<char>)>::empty();
    assert(elements_run(start, reader_events(p0)) == Some(inside_root(e0)));
    let p1 = p0 + optional_element("dc:title"@, none, core.title);
    let e1 = e0 + named_value("title"@, core.title);
    lemma_optional_pieces_run(p0, e0, "dc:title"@, none, core.title);
    let p2 = p1 + optional_element("dc:subject"@, none, core.subject);
    let e2 = e1 + named_value("subject"@, core.subject);
    lemma_optional_pieces_run(p1, e1, "dc:subject"@, none, core.subject);
    let p3 = p2 + optional_element("dc:creator"@, none, core.creator);
    let e3 = e2 + named_value("creator"@, core.creator);
    lemma_optional_pieces_run(p2, e2, "dc:creator"@, none, core.creator);
    let p4 = p3 + optional_element("cp:lastModifiedBy"@, none, core.last_modified_by);
    let e4 = e3 + named_value("lastModifiedBy"@, core.last_modified_by);
    lemma_optional_pieces_run(p3, e3, "cp:lastModifiedBy"@, none, core.last_modified_by);
    let p5 = p4 + optional_element("dc:description"@, none, core.description);
    let e5 = e4 + named_value("description"@, core.description);
    lemma_optional_pieces_run(p4, e4, "dc:description"@, none, core.description);
    let joined = joined_with(core.keywords, ", "@);
    let kw_events = if core.keywords.len() > 0 {
        text_element("cp:keywords"@, none, joined)
    } else {
        Seq::empty()
    };
    let kw_elements = if core.keywords.len() > 0 {
        seq![("keywords"@, joined)]
    } else {
        Seq::empty()
    };
    let p6 = p5 + kw_events;
    let e6 = e5 + kw_elements;
    lemma_reader_events_append(p5, kw_events);
    lemma_elements_run_append(start, reader_events(p5), reader_events(kw_events));
    if core.keywords.len() > 0 {
        lemma_text_element_pieces_run(e5, "cp:keywords"@, none, joined);
        assert(e5.push((local_name("cp:keywords"@), joined)) =~= e6);
    } else {
        assert(kw_events =~= Seq::<EventView>::empty());
        assert(reader_events(kw_events) =~= Seq::<EventView>::empty());
        assert(reader_events(p5) + reader_events(kw_events) =~= reader_events(p5));
        assert(e6 =~= e5);
    }
    assert(elements_run(start, reader_events(p6)) == Some(inside_root(e6)));
    let p7 = p6 + optional_element("cp:category"@, none, core.category);
    let e7 = e6 + named_value("category"@, core.category);
    lemma_optional_pieces_run(p6, e6, "cp:category"@, none, core.category);
    let p8 = p7 + optional_element("cp:contentStatus"@, none, core.content_status);
    let e8 = e7 + named_value("contentStatus"@, core.content_status);
    lemma_optional_pieces_run(p7, e7, "cp:contentStatus"@, none, core.content_status);
    let p9 = p8 + optional_element("cp:contentType"@, none, core.content_type);
    let e9 = e8 + named_value("contentType"@, core.content_type);
    lemma_optional_pieces_run(p8, e8, "cp:contentType"@, none, core.content_type);
    let p10 = p9 + optional_element("dc:language"@, none, core.language);
    let e10 = e9 + named_value("language"@, core.language);
    lemma_optional_pieces_run(p9, e9, "dc:language"@, none, core.language);
    let p11 = p10 + optional_element("dcterms:created"@, timestamp_attributes(), core.created);
    let e11 = e10 + named_value("created"@, core.created);
    lemma_optional_pieces_run(p10, e10, "dcterms:created"@, timestamp_attributes(), core.created);
    let p12 = p11 + optional_element("dcterms:modified"@, timestamp_attributes(), core.modified);
    let e12 = e11 + named_value("modified"@, core.modified);
    lemma_optional_pieces_run(p11, e11, "dcterms:modified"@, timestamp_attributes(), core.modified);
    let p13 = p12 + optional_element("cp:lastPrinted"@, none, core.last_printed);
    let e13 = e12 + named_value("lastPrinted"@, core.last_printed);
    lemma_optional_pieces_run(p12, e12, "cp:lastPrinted"@, none, core.last_printed);
    let p14 = p13 + optional_element("cp:revision"@, none, core.revision);
    let e14 = e13 + named_value("revision"@, core.revision);
    lemma_optional_pieces_run(p13, e13, "cp:revision"@, none, core.revision);
    let p15 = p14 + optional_element("dc:identifier"@, none, core.identifier);
    let e15 = e14 + named_value("identifier"@, core.identifier);
    lemma_optional_pieces_run(p14, e14, "dc:identifier"@, none, core.identifier);
    let p16 = p15 + optional_element("cp:version"@, none, core.version);
    let e16 = e15 + named_value("version"@, core.version);
    lemma_optional_pieces_run(p15, e15, "cp:version"@, none, core.version);
    let end = EventView::End("cp:coreProperties"@);
    let events = p16 + seq![end];
    lemma_reader_events_append(p16, seq![end]);
    lemma_reader_events_one(end);
    let read = reader_events(events);
    lemma_elements_run_append(start, reader_events(p16), seq![end]);
    lemma_elements_run_one(Some(inside_root(e16)), end);
    assert(events == core_events(core));
    lemma_elements_fold_run(read, read.len() as int);
    assert(read.take(read.len() as int) =~= read);
    assert(e16 == core_elements(core));
}

/// Applying the elements of generated core properties to empty core
/// properties gives back the properties, where set values are not empty and
/// keywords read back from their joined text.
proof fn lemma_core_elements_applied(core: CoreView)
    requires
        readable_core(core),
    ensures
        core_applied(empty_core(), core_elements(core)) == core,
{
    lemma_core_with_all();
    let c0 = empty_core();
    let e0 = Seq::<(Seq<char>, Seq<char>)>::empty();
    assert(core_applied(c0, e0) == c0);
    let e1 = e0 + named_value("title"@, core.title);
    lemma_core_applied_named(c0, e0, "title"@, core.title);
    assert(core_applied(c0, e1) == (CoreView { title: core.title, ..c0 }));
    let e2 = e1 + named_value("subject"@, core.subject);
    lemma_core_applied_named(c0, e1, "subject"@, core.subject);
    assert(core_applied(c0, e2) == (CoreView { title: core.title, subject: core.subject, ..c0 }));
    let e3 = e2 + named_value("creator"@, core.creator);
    lemma_core_applied_named(c0, e2, "creator"@, core.creator);
    assert(core_applied(c0, e3) == (CoreView { title: core.title, subject: core.subject, creator: core.creator, ..c0 }));
    let e4 = e3 + named_value("lastModifiedBy"@, core.last_modified_by);
    lemma_core_applied_named(c0, e3, "lastModifiedBy"@, core.last_modified_by);
    assert(core_applied(c0, e4) == (CoreView { title: core.title, subject: core.subject, creator: core.creator, last_modified_by: core.last_modified_by, ..c0 }));
    let e5 = e4 + named_value("description"@, core.description);
    lemma_core_applied_named(c0, e4, "description"@, core.description);
    assert(core_applied(c0, e5) == (CoreView { title: core.title, subject: core.subject, creator: core.creator, last_modified_by: core.last_modified_by, description: core.description, ..c0 }));
    let joined = joined_with(core.keywords, ", "@);
    let e6 = e5 + (if core.keywords.len() > 0 {
        seq![("keywords"@, joined)]
    } else {
        Seq::empty()
    });
    if core.keywords.len() > 0 {
        assert(e6.drop_last() =~= e5);
        assert(e6.last() == ("keywords"@, joined));
        lemma_keywords_of_joined(core.keywords);
    } else {
        assert(e6 =~= e5);
        assert(core.keywords =~= Seq::<Seq<char>>::empty());
    }
    assert(core_applied(c0, e6) == (CoreView { title: core.title, subject: core.subject, creator: core.creator, last_modified_by: core.last_modified_by, description: core.description, keywords: core.keywords, ..c0 }));
    let e7 = e6 + named_value("category"@, core.category);
    lemma_core_applied_named(c0, e6, "category"@, core.category);
    assert(core_applied(c0, e7) == (CoreView { title: core.title, subject: core.subject, creator: core.creator, last_modified_by: core.last_modified_by, description: core.description, keywords: core.keywords, category: core.category, ..c0 }));
    let e8 = e7 + named_value("contentStatus"@, core.content_status);
    lemma_core_applied_named(c0, e7, "contentStatus"@, core.content_status);
    assert(core_applied(c0, e8) == (CoreView { title: core.title, subject: core.subject, creator: core.creator, last_modified_by: core.last_modified_by, description: core.description, keywords: core.keywords, category: core.category, content_status: core.content_status, ..c0 }));
    let e9 = e8 + named_value("contentType"@, core.content_type);
    lemma_core_applied_named(c0, e8, "contentType"@, core.content_type);
    assert(core_applied(c0, e9) == (CoreView { title: core.title, subject: core.subject, creator: core.creator, last_modified_by: core.last_modified_by, description: core.description, keywords: core.keywords, category: core.category, content_status: core.content_status, content_type: core.content_type, ..c0 }));
    let e10 = e9 + named_value("language"@, core.language);
    lemma_core_applied_named(c0, e9, "language"@, core.language);
    assert(core_applied(c0, e10) == (CoreView { title: core.title, subject: core.subject, creator: core.creator, last_modified_by: core.last_modified_by, description: core.description, keywords: core.keywords, category: core.category, content_status: core.content_status, content_type: core.content_type, language: core.language, ..c0 }));
    let e11 = e10 + named_value("created"@, core.created);
    lemma_core_applied_named(c0, e10, "created"@, core.created);
    assert(core_applied(c0, e11) == (CoreView { title: core.title, subject: core.subject, creator: core.creator, last_modified_by: core.last_modified_by, description: core.description, keywords: core.keywords, category: core.category, content_status: core.content_status, content_type: core.content_type, language: core.language, created: core.created, ..c0 }));
    let e12 = e11 + named_value("modified"@, core.modified);
    lemma_core_applied_named(c0, e11, "modified"@, core.modified);
    assert(core_applied(c0, e12) == (CoreView { title: core.title, subject: core.subject, creator: core.creator, last_modified_by: core.last_modified_by, description: core.description, keywords: core.keywords, category: core.category, content_status: core.content_status, content_type: core.content_type, language: core.language, created: core.created, modified: core.modified, ..c0 }));
    let e13 = e12 + named_value("lastPrinted"@, core.last_printed);
    lemma_core_applied_named(c0, e12, "lastPrinted"@, core.last_printed);
    assert(core_applied(c0, e13) == (CoreView { title: core.title, subject: core.subject, creator: core.creator, last_modified_by: core.last_modified_by, description: core.description, keywords: core.keywords, category: core.category, content_status: core.content_status, content_type: core.content_type, language: core.language, created: core.created, modified: core.modified, last_printed: core.last_printed, ..c0 }));
    let e14 = e13 + named_value("revision"@, core.revision);
    lemma_core_applied_named(c0, e13, "revision"@, core.revision);
    assert(core_applied(c0, e14) == (CoreView { title: core.title, subject: core.subject, creator: core.creator, last_modified_by: core.last_modified_by, description: core.description, keywords: core.keywords, category: core.category, content_status: core.content_status, content_type: core.content_type, language: core.language, created: core.created, modified: core.modified, last_printed: core.last_printed, revision: core.revision, ..c0 }));
    let e15 = e14 + named_value("identifier"@, core.identifier);
    lemma_core_applied_named(c0, e14, "identifier"@, core.identifier);
    assert(core_applied(c0, e15) == (CoreView { title: core.title, subject: core.subject, creator: core.creator, last_modified_by: core.last_modified_by, description: core.description, keywords: core.keywords, category: core.category, content_status: core.content_status, content_type: core.content_type, language: core.language, created: core.created, modified: core.modified, last_printed: core.last_printed, revision: core.revision, identifier: core.identifier, ..c0 }));
    let e16 = e15 + named_value("version"@, core.version);
    lemma_core_applied_named(c0, e15, "version"@, core.version);
    assert(core_applied(c0, e16) == (CoreView { title: core.title, subject: core.subject, creator: core.creator, last_modified_by: core.last_modified_by, description: core.description, keywords: core.keywords, category: core.category, content_status: core.content_status, content_type: core.content_type, language: core.language, created: core.created, modified: core.modified, last_printed: core.last_printed, revision: core.revision, identifier: core.identifier, version: core.version }));
    assert(e16 == core_elements(core));
}

/// Generated core properties read back as the properties they were made
/// from: the text elements collected from the generated events, as the
/// reader splits their text at references, applied to empty core properties,
/// give the same properties, where each set value is not empty, each keyword
/// is without commas or white space at either end, and resolving the
/// references that escaping writes gives back their characters.
pub proof fn law_core_properties_read_back(core: CoreView)
    requires
        readable_core(core),
        references_resolve(),
    ensures
        events_elements(reader_events(core_events(core))) matches Some(elements) && core_applied(
            empty_core(),
            elements,
        ) == core,
{
    lemma_core_events_elements(core);
    lemma_core_elements_applied(core);
}

} // verus!
