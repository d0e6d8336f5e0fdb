//! What generated extended properties read back as.
use crate::elements::{
    elements_run, elements_start, elements_step, events_elements, inside_root, lemma_elements_fold_run,
    lemma_elements_run_append, lemma_elements_run_one, lemma_optional_pieces_run, lemma_text_element_run, named_value,
    ElementsState,
};
use crate::reader_pieces::{
    clean_event, clean_events, lemma_clean_events_append, lemma_clean_events_read, lemma_clean_text_element,
    lemma_reader_events_append, lemma_reader_events_one, lemma_trimmed_pieces_only, lemma_text_pieces_only,
    lemma_trimmed_reader_events_append, lemma_trimmed_reader_events_one, pieces_only, reader_events,
    references_resolve, text_pieces, trimmed_pieces, trimmed_reader_events,
};
use crate::xml_reader::is_xml_space;
use crate::extended_props::{
    extended_applied, extended_events, extended_root_attributes, extended_with, flag_element, heading_pair_events,
    heading_pair_list_events, heading_pairs_events, heading_pairs_of, number_element, set_or, title_list_events,
    titles_events, vector_attributes, vectors_fold, vectors_step, VectorKind, VectorsState,
};
use crate::metadata::{empty_extended, ExtendedView};
use crate::numbers::{bool_text, decimal, lemma_decimal_digits, law_decimal_round_trip, law_flag_round_trip, parsed_bool, parsed_u32};
use crate::xml::{escaped_text, EventView};
use crate::xml_build::{optional_element, standalone_declaration, text_element};
use crate::xml_text::{
    is_markup_char, lemma_local_name_at, lemma_local_name_plain, lemma_plain_decoded, local_name, plain_text,
};
use vstd::prelude::*;

verus! {

proof fn lemma_extended_local_names()
    ensures
        local_name("Properties"@) == "Properties"@,
        local_name("Application"@) == "Application"@,
        local_name("AppVersion"@) == "AppVersion"@,
        local_name("Template"@) == "Template"@,
        local_name("Company"@) == "Company"@,
        local_name("TotalTime"@) == "TotalTime"@,
        local_name("Pages"@) == "Pages"@,
        local_name("Words"@) == "Words"@,
        local_name("Characters"@) == "Characters"@,
        local_name("CharactersWithSpaces"@) == "CharactersWithSpaces"@,
        local_name("Lines"@) == "Lines"@,
        local_name("Paragraphs"@) == "Paragraphs"@,
        local_name("DocSecurity"@) == "DocSecurity"@,
        local_name("ScaleCrop"@) == "ScaleCrop"@,
        local_name("LinksUpToDate"@) == "LinksUpToDate"@,
        local_name("SharedDoc"@) == "SharedDoc"@,
        local_name("HyperlinksChanged"@) == "HyperlinksChanged"@,
        local_name("HeadingPairs"@) == "HeadingPairs"@,
        local_name("TitlesOfParts"@) == "TitlesOfParts"@,
        local_name("DigSig"@) == "DigSig"@,
        local_name("vt:vector"@) == "vector"@,
        local_name("vt:variant"@) == "variant"@,
        local_name("vt:lpstr"@) == "lpstr"@,
        local_name("vt:i4"@) == "i4"@,
{
    reveal_strlit("Properties");
    lemma_local_name_plain("Properties"@);
    reveal_strlit("Application");
    lemma_local_name_plain("Application"@);
    reveal_strlit("AppVersion");
    lemma_local_name_plain("AppVersion"@);
    reveal_strlit("Template");
    lemma_local_name_plain("Template"@);
    reveal_strlit("Company");
    lemma_local_name_plain("Company"@);
    reveal_strlit("TotalTime");
    lemma_local_name_plain("TotalTime"@);
    reveal_strlit("Pages");
    lemma_local_name_plain("Pages"@);
    reveal_strlit("Words");
    lemma_local_name_plain("Words"@);
    reveal_strlit("Characters");
    lemma_local_name_plain("Characters"@);
    reveal_strlit("CharactersWithSpaces");
    lemma_local_name_plain("CharactersWithSpaces"@);
    reveal_strlit("Lines");
    lemma_local_name_plain("Lines"@);
    reveal_strlit("Paragraphs");
    lemma_local_name_plain("Paragraphs"@);
    reveal_strlit("DocSecurity");
    lemma_local_name_plain("DocSecurity"@);
    reveal_strlit("ScaleCrop");
    lemma_local_name_plain("ScaleCrop"@);
    reveal_strlit("LinksUpToDate");
    lemma_local_name_plain("LinksUpToDate"@);
    reveal_strlit("SharedDoc");
    lemma_local_name_plain("SharedDoc"@);
    reveal_strlit("HyperlinksChanged");
    lemma_local_name_plain("HyperlinksChanged"@);
    reveal_strlit("HeadingPairs");
    lemma_local_name_plain("HeadingPairs"@);
    reveal_strlit("TitlesOfParts");
    lemma_local_name_plain("TitlesOfParts"@);
    reveal_strlit("DigSig");
    lemma_local_name_plain("DigSig"@);
    reveal_strlit("vt:vector");
    reveal_strlit("vector");
    lemma_local_name_at("vt:vector"@, 2);
    assert("vt:vector"@.skip(3) =~= "vector"@);
    reveal_strlit("vt:variant");
    reveal_strlit("variant");
    lemma_local_name_at("vt:variant"@, 2);
    assert("vt:variant"@.skip(3) =~= "variant"@);
    reveal_strlit("vt:lpstr");
    reveal_strlit("lpstr");
    lemma_local_name_at("vt:lpstr"@, 2);
    assert("vt:lpstr"@.skip(3) =~= "lpstr"@);
    reveal_strlit("vt:i4");
    reveal_strlit("i4");
    lemma_local_name_at("vt:i4"@, 2);
    assert("vt:i4"@.skip(3) =~= "i4"@);
}


/// Decimal numbers and flags are plain text.
proof fn lemma_plain_number_and_flag(n: nat, b: bool)
    ensures
        plain_text(decimal(n)),
        decimal(n).len() > 0,
        plain_text(bool_text(b)),
{
    lemma_decimal_digits(n);
    assert forall|i: int| 0 <= i < decimal(n).len() implies !is_markup_char(#[trigger] decimal(n)[i]) by {
        assert(crate::numbers::is_digit(decimal(n)[i]));
    }
    reveal_strlit("true");
    reveal_strlit("false");
}

/// The state inside a child of the root opened at depth 2, at some depth,
/// with the text collected so far.
pub open spec fn inside_element(
    depth: int,
    name: Seq<char>,
    value: Seq<char>,
    elements: Seq<(Seq<char>, Seq<char>)>,
) -> ElementsState {
    ElementsState { depth, current: Some((name, value, 2)), elements }
}

/// A start tag inside a child of the root goes one level deeper.
proof fn lemma_nested_start(
    depth: int,
    name: Seq<char>,
    value: Seq<char>,
    elements: Seq<(Seq<char>, Seq<char>)>,
    tag: Seq<char>,
    attributes: Seq<char>,
)
    requires
        depth >= 2,
    ensures
        elements_run(Some(inside_element(depth, name, value, elements)), seq![EventView::Start(tag, attributes)])
            == Some(inside_element(depth + 1, name, value, elements)),
{
    lemma_elements_run_one(Some(inside_element(depth, name, value, elements)), EventView::Start(tag, attributes));
}

/// An end tag deeper inside a child of the root goes one level up.
proof fn lemma_nested_end(
    depth: int,
    name: Seq<char>,
    value: Seq<char>,
    elements: Seq<(Seq<char>, Seq<char>)>,
    tag: Seq<char>,
)
    requires
        depth >= 3,
    ensures
        elements_run(Some(inside_element(depth, name, value, elements)), seq![EventView::End(tag)]) == Some(
            inside_element(depth - 1, name, value, elements),
        ),
{
    lemma_elements_run_one(Some(inside_element(depth, name, value, elements)), EventView::End(tag));
}

/// A plain text element inside a child of the root adds its text to the
/// child's value.
proof fn lemma_nested_text_run(
    depth: int,
    name: Seq<char>,
    value: Seq<char>,
    elements: Seq<(Seq<char>, Seq<char>)>,
    tag: Seq<char>,
    attributes: Seq<char>,
    text: Seq<char>,
)
    requires
        depth >= 2,
        plain_text(text),
    ensures
        elements_run(Some(inside_element(depth, name, value, elements)), text_element(tag, attributes, text)) == Some(
            inside_element(depth, name, value + text, elements),
        ),
{
    lemma_plain_decoded(text);
    let s0 = Some(inside_element(depth, name, value, elements));
    let a = EventView::Start(tag, attributes);
    let b = EventView::Text(escaped_text(text));
    let c = EventView::End(tag);
    assert(text_element(tag, attributes, text) =~= seq![a] + seq![b] + seq![c]);
    lemma_elements_run_append(s0, seq![a] + seq![b], seq![c]);
    lemma_elements_run_append(s0, seq![a], seq![b]);
    lemma_elements_run_one(s0, a);
    let s1 = elements_step(s0, a);
    lemma_elements_run_one(s1, b);
    let s2 = elements_step(s1, b);
    lemma_elements_run_one(s2, c);
}

/// The texts of heading pairs, one after another: each name, then its
/// count in decimal.
pub open spec fn heading_pairs_text(pairs: Seq<(Seq<char>, u32)>) -> Seq<char>
    decreases pairs.len(),
{
    if pairs.len() == 0 {
        Seq::empty()
    } else {
        heading_pairs_text(pairs.drop_last()) + pairs.last().0 + decimal(pairs.last().1 as nat)
    }
}

/// The texts of titles, one after another.
pub open spec fn titles_text(titles: Seq<Seq<char>>) -> Seq<char>
    decreases titles.len(),
{
    if titles.len() == 0 {
        Seq::empty()
    } else {
        titles_text(titles.drop_last()) + titles.last()
    }
}

/// Text of a vector item that reads back as it is, with text trimmed or
/// not: not empty, plain, and without XML white space at either end.
pub open spec fn readable_item(text: Seq<char>) -> bool {
    &&& text.len() > 0
    &&& plain_text(text)
    &&& !is_xml_space(text[0])
    &&& !is_xml_space(text.last())
}

/// Heading pairs whose names read back as they are.
pub open spec fn readable_pairs(pairs: Seq<(Seq<char>, u32)>) -> bool {
    forall|i: int| 0 <= i < pairs.len() ==> readable_item(#[trigger] pairs[i].0)
}

/// Titles that read back as they are.
pub open spec fn readable_titles(titles: Seq<Seq<char>>) -> bool {
    forall|i: int| 0 <= i < titles.len() ==> readable_item(#[trigger] titles[i])
}

proof fn lemma_heading_pair_run(value: Seq<char>, elements: Seq<(Seq<char>, Seq<char>)>, pair: (Seq<char>, u32))
    requires
        plain_text(pair.0),
    ensures
        elements_run(Some(inside_element(3, "HeadingPairs"@, value, elements)), heading_pair_events(pair)) == Some(
            inside_element(3, "HeadingPairs"@, value + pair.0 + decimal(pair.1 as nat), elements),
        ),
{
    let n = "HeadingPairs"@;
    let none = Seq::<char>::empty();
    let count = decimal(pair.1 as nat);
    lemma_plain_number_and_flag(pair.1 as nat, true);
    let s0 = Some(inside_element(3, n, value, elements));
    let a = seq![EventView::Start("vt:variant"@, none)];
    let b = text_element("vt:lpstr"@, none, pair.0);
    let c = seq![EventView::End("vt:variant"@)];
    let d = seq![EventView::Start("vt:variant"@, none)];
    let e = text_element("vt:i4"@, none, count);
    let f = seq![EventView::End("vt:variant"@)];
    assert(heading_pair_events(pair) =~= a + b + c + d + e + f);
    lemma_elements_run_append(s0, a + b + c + d + e, f);
    lemma_elements_run_append(s0, a + b + c + d, e);
    lemma_elements_run_append(s0, a + b + c, d);
    lemma_elements_run_append(s0, a + b, c);
    lemma_elements_run_append(s0, a, b);
    lemma_nested_start(3, n, value, elements, "vt:variant"@, none);
    lemma_nested_text_run(4, n, value, elements, "vt:lpstr"@, none, pair.0);
    lemma_nested_end(4, n, value + pair.0, elements, "vt:variant"@);
    lemma_nested_start(3, n, value + pair.0, elements, "vt:variant"@, none);
    lemma_nested_text_run(4, n, value + pair.0, elements, "vt:i4"@, none, count);
    lemma_nested_end(4, n, value + pair.0 + count, elements, "vt:variant"@);
}

proof fn lemma_heading_pair_list_run(value: Seq<char>, elements: Seq<(Seq<char>, Seq<char>)>, pairs: Seq<(Seq<char>, u32)>)
    requires
        readable_pairs(pairs),
    ensures
        elements_run(Some(inside_element(3, "HeadingPairs"@, value, elements)), heading_pair_list_events(pairs))
            == Some(inside_element(3, "HeadingPairs"@, value + heading_pairs_text(pairs), elements)),
    decreases pairs.len(),
{
    let s0 = Some(inside_element(3, "HeadingPairs"@, value, elements));
    if pairs.len() == 0 {
        assert(value + heading_pairs_text(pairs) =~= value);
    } else {
        let front = pairs.drop_last();
        assert forall|i: int| 0 <= i < front.len() implies #[trigger] front[i].0.len() > 0 && plain_text(front[i].0) by {
            assert(front[i] == pairs[i]);
        }
        lemma_heading_pair_list_run(value, elements, front);
        lemma_elements_run_append(s0, heading_pair_list_events(front), heading_pair_events(pairs.last()));
        assert(plain_text(pairs[pairs.len() - 1].0));
        lemma_heading_pair_run(value + heading_pairs_text(front), elements, pairs.last());
        assert(value + heading_pairs_text(front) + pairs.last().0 + decimal(pairs.last().1 as nat) =~= value
            + heading_pairs_text(pairs));
    }
}

proof fn lemma_title_list_run(value: Seq<char>, elements: Seq<(Seq<char>, Seq<char>)>, titles: Seq<Seq<char>>)
    requires
        readable_titles(titles),
    ensures
        elements_run(Some(inside_element(3, "TitlesOfParts"@, value, elements)), title_list_events(titles)) == Some(
            inside_element(3, "TitlesOfParts"@, value + titles_text(titles), elements),
        ),
    decreases titles.len(),
{
    let s0 = Some(inside_element(3, "TitlesOfParts"@, value, elements));
    if titles.len() == 0 {
        assert(value + titles_text(titles) =~= value);
    } else {
        let front = titles.drop_last();
        assert forall|i: int| 0 <= i < front.len() implies #[trigger] front[i].len() > 0 && plain_text(front[i]) by {
            assert(front[i] == titles[i]);
        }
        lemma_title_list_run(value, elements, front);
        let last = text_element("vt:lpstr"@, Seq::empty(), titles.last());
        lemma_elements_run_append(s0, title_list_events(front), last);
        assert(plain_text(titles[titles.len() - 1]));
        lemma_nested_text_run(3, "TitlesOfParts"@, value + titles_text(front), elements, "vt:lpstr"@, Seq::empty(), titles.last());
        assert(value + titles_text(front) + titles.last() =~= value + titles_text(titles));
    }
}

/// A vector property inside the root adds one element holding its texts.
proof fn lemma_vector_property_run(
    elements: Seq<(Seq<char>, Seq<char>)>,
    name: Seq<char>,
    attributes: Seq<char>,
    items: Seq<EventView>,
    text: Seq<char>,
)
    requires
        local_name(name) == name,
        elements_run(Some(inside_element(3, name, Seq::empty(), elements)), items) == Some(
            inside_element(3, name, text, elements),
        ),
    ensures
        elements_run(
            Some(inside_root(elements)),
            seq![EventView::Start(name, Seq::empty()), EventView::Start("vt:vector"@, attributes)] + items + seq![
                EventView::End("vt:vector"@),
                EventView::End(name),
            ],
        ) == Some(inside_root(elements.push((name, text)))),
{
    let s0 = Some(inside_root(elements));
    let a = EventView::Start(name, Seq::empty());
    let b = EventView::Start("vt:vector"@, attributes);
    let c = EventView::End("vt:vector"@);
    let d = EventView::End(name);
    assert(seq![a, b] =~= seq![a] + seq![b]);
    assert(seq![c, d] =~= seq![c] + seq![d]);
    let events = seq![a, b] + items + seq![c, d];
    assert(events =~= seq![a] + seq![b] + items + seq![c] + seq![d]);
    lemma_elements_run_append(s0, seq![a] + seq![b] + items + seq![c], seq![d]);
    lemma_elements_run_append(s0, seq![a] + seq![b] + items, seq![c]);
    lemma_elements_run_append(s0, seq![a] + seq![b], items);
    lemma_elements_run_append(s0, seq![a], seq![b]);
    lemma_elements_run_one(s0, a);
    assert(elements_step(s0, a) == Some(inside_element(2, name, Seq::empty(), elements)));
    lemma_nested_start(2, name, Seq::empty(), elements, "vt:vector"@, attributes);
    lemma_nested_end(3, name, text, elements, "vt:vector"@);
    lemma_elements_run_one(Some(inside_element(2, name, text, elements)), d);
}


/// A number element's name and decimal text, when the number is set.
pub open spec fn number_value(name: Seq<char>, value: Option<u32>) -> Seq<(Seq<char>, Seq<char>)> {
    match value {
        Some(n) => seq![(name, decimal(n as nat))],
        None => Seq::empty(),
    }
}

/// A flag element's name and text, when the flag is set.
pub open spec fn flag_value(name: Seq<char>, value: Option<bool>) -> Seq<(Seq<char>, Seq<char>)> {
    match value {
        Some(b) => seq![(name, bool_text(b))],
        None => Seq::empty(),
    }
}

/// A vector property's name and texts, when it has items.
pub open spec fn vector_value(name: Seq<char>, present: bool, text: Seq<char>) -> Seq<(Seq<char>, Seq<char>)> {
    if present {
        seq![(name, text)]
    } else {
        Seq::empty()
    }
}

/// The text elements of generated extended properties, in the order
/// written.
pub open spec fn extended_elements(ext: ExtendedView) -> Seq<(Seq<char>, Seq<char>)> {
    text_elements(ext) + number_elements(ext) + flag_elements(ext) + vector_elements(ext) + named_value(
        "DigSig"@,
        ext.dig_sig,
    )
}

proof fn lemma_number_run(prefix: Seq<EventView>, elements: Seq<(Seq<char>, Seq<char>)>, name: Seq<char>, value: Option<u32>)
    requires
        elements_run(Some(elements_start()), prefix) == Some(inside_root(elements)),
        local_name(name) == name,
    ensures
        elements_run(Some(elements_start()), prefix + number_element(name, value)) == Some(
            inside_root(elements + number_value(name, value)),
        ),
{
    lemma_elements_run_append(Some(elements_start()), prefix, number_element(name, value));
    match value {
        Some(n) => {
            lemma_plain_number_and_flag(n as nat, true);
            lemma_text_element_run(elements, name, Seq::empty(), decimal(n as nat));
            assert(elements.push((name, decimal(n as nat))) =~= elements + seq![(name, decimal(n as nat))]);
        },
        None => {
            assert(elements + Seq::<(Seq<char>, Seq<char>)>::empty() =~= elements);
        },
    }
}

proof fn lemma_flag_run(prefix: Seq<EventView>, elements: Seq<(Seq<char>, Seq<char>)>, name: Seq<char>, value: Option<bool>)
    requires
        elements_run(Some(elements_start()), prefix) == Some(inside_root(elements)),
        local_name(name) == name,
    ensures
        elements_run(Some(elements_start()), prefix + flag_element(name, value)) == Some(
            inside_root(elements + flag_value(name, value)),
        ),
{
    lemma_elements_run_append(Some(elements_start()), prefix, flag_element(name, value));
    match value {
        Some(b) => {
            lemma_plain_number_and_flag(0, b);
            lemma_text_element_run(elements, name, Seq::empty(), bool_text(b));
            assert(elements.push((name, bool_text(b))) =~= elements + seq![(name, bool_text(b))]);
        },
        None => {
            assert(elements + Seq::<(Seq<char>, Seq<char>)>::empty() =~= elements);
        },
    }
}

proof fn lemma_heading_pairs_run(prefix: Seq<EventView>, elements: Seq<(Seq<char>, Seq<char>)>, pairs: Seq<(Seq<char>, u32)>)
    requires
        elements_run(Some(elements_start()), prefix) == Some(inside_root(elements)),
        readable_pairs(pairs),
    ensures
        elements_run(Some(elements_start()), prefix + heading_pairs_events(pairs)) == Some(
            inside_root(elements + vector_value("HeadingPairs"@, pairs.len() > 0, heading_pairs_text(pairs))),
        ),
{
    lemma_extended_local_names();
    lemma_elements_run_append(Some(elements_start()), prefix, heading_pairs_events(pairs));
    if pairs.len() > 0 {
        lemma_heading_pair_list_run(Seq::empty(), elements, pairs);
        let text = Seq::<char>::empty() + heading_pairs_text(pairs);
        assert(text =~= heading_pairs_text(pairs));
        lemma_vector_property_run(
            elements,
            "HeadingPairs"@,
            vector_attributes(2 * pairs.len(), "variant"@),
            heading_pair_list_events(pairs),
            text,
        );
        assert(elements.push(("HeadingPairs"@, text)) =~= elements + seq![("HeadingPairs"@, text)]);
    } else {
        assert(prefix + heading_pairs_events(pairs) =~= prefix);
        assert(elements + Seq::<(Seq<char>, Seq<char>)>::empty() =~= elements);
    }
}

proof fn lemma_titles_run(prefix: Seq<EventView>, elements: Seq<(Seq<char>, Seq<char>)>, titles: Seq<Seq<char>>)
    requires
        elements_run(Some(elements_start()), prefix) == Some(inside_root(elements)),
        readable_titles(titles),
    ensures
        elements_run(Some(elements_start()), prefix + titles_events(titles)) == Some(
            inside_root(elements + vector_value("TitlesOfParts"@, titles.len() > 0, titles_text(titles))),
        ),
{
    lemma_extended_local_names();
    lemma_elements_run_append(Some(elements_start()), prefix, titles_events(titles));
    if titles.len() > 0 {
        lemma_title_list_run(Seq::empty(), elements, titles);
        let text = Seq::<char>::empty() + titles_text(titles);
        assert(text =~= titles_text(titles));
        lemma_vector_property_run(
            elements,
            "TitlesOfParts"@,
            vector_attributes(titles.len(), "lpstr"@),
            title_list_events(titles),
            text,
        );
        assert(elements.push(("TitlesOfParts"@, text)) =~= elements + seq![("TitlesOfParts"@, text)]);
    } else {
        assert(prefix + titles_events(titles) =~= prefix);
        assert(elements + Seq::<(Seq<char>, Seq<char>)>::empty() =~= elements);
    }
}

/// A set value that reads back as it is: one that is not empty.
pub open spec fn readable_text(value: Option<Seq<char>>) -> bool {
    value matches Some(v) ==> v.len() > 0
}

/// Extended properties that read back from their generated events as they
/// are: set texts are not empty; heading pair names and titles are plain,
/// not empty, and without XML white space at either end.
pub open spec fn readable_extended(ext: ExtendedView) -> bool {
    &&& readable_text(ext.application)
    &&& readable_text(ext.app_version)
    &&& readable_text(ext.template)
    &&& readable_text(ext.company)
    &&& readable_text(ext.dig_sig)
    &&& readable_pairs(ext.heading_pairs)
    &&& readable_titles(ext.titles_of_parts)
}

proof fn lemma_text_group_run(prefix: Seq<EventView>, elements: Seq<(Seq<char>, Seq<char>)>, ext: ExtendedView)
    requires
        elements_run(Some(elements_start()), reader_events(prefix)) == Some(inside_root(elements)),
        references_resolve(),
    ensures
        elements_run(
            Some(elements_start()),
            reader_events(prefix
            + optional_element("Application"@, Seq::empty(), ext.application)
            + optional_element("AppVersion"@, Seq::empty(), ext.app_version)
            + optional_element("Template"@, Seq::empty(), ext.template)
            + optional_element("Company"@, Seq::empty(), ext.company)),
        ) == Some(inside_root(elements + text_elements(ext))),
{
    lemma_extended_local_names();
    let p0 = prefix;
    let e0 = elements;
    let p1 = p0 + optional_element("Application"@, Seq::empty(), ext.application);
    let e1 = e0 + named_value("Application"@, ext.application);
    let g1 = Seq::<(Seq<char>, Seq<char>)>::empty() + named_value("Application"@, ext.application);
    assert(e1 =~= elements + g1);
    lemma_optional_pieces_run(p0, e0, "Application"@, Seq::empty(), ext.application);
    let p2 = p1 + optional_element("AppVersion"@, Seq::empty(), ext.app_version);
    let e2 = e1 + named_value("AppVersion"@, ext.app_version);
    let g2 = g1 + named_value("AppVersion"@, ext.app_version);
    assert(e2 =~= elements + g2);
    lemma_optional_pieces_run(p1, e1, "AppVersion"@, Seq::empty(), ext.app_version);
    let p3 = p2 + optional_element("Template"@, Seq::empty(), ext.template);
    let e3 = e2 + named_value("Template"@, ext.template);
    let g3 = g2 + named_value("Template"@, ext.template);
    assert(e3 =~= elements + g3);
    lemma_optional_pieces_run(p2, e2, "Template"@, Seq::empty(), ext.template);
    let p4 = p3 + optional_element("Company"@, Seq::empty(), ext.company);
    let e4 = e3 + named_value("Company"@, ext.company);
    let g4 = g3 + named_value("Company"@, ext.company);
    assert(e4 =~= elements + g4);
    lemma_optional_pieces_run(p3, e3, "Company"@, Seq::empty(), ext.company);
    assert(g4 == text_elements(ext));
}

proof fn lemma_number_group_run(prefix: Seq<EventView>, elements: Seq<(Seq<char>, Seq<char>)>, ext: ExtendedView)
    requires
        elements_run(Some(elements_start()), prefix) == Some(inside_root(elements)),
        readable_extended(ext),
    ensures
        elements_run(
            Some(elements_start()),
            prefix
            + number_element("TotalTime"@, ext.total_time)
            + number_element("Pages"@, ext.pages)
            + number_element("Words"@, ext.words)
            + number_element("Characters"@, ext.characters)
            + number_element("CharactersWithSpaces"@, ext.characters_with_spaces)
            + number_element("Lines"@, ext.lines)
            + number_element("Paragraphs"@, ext.paragraphs)
            + number_element("DocSecurity"@, ext.doc_security),
        ) == Some(inside_root(elements + number_elements(ext))),
{
    lemma_extended_local_names();
    let p0 = prefix;
    let e0 = elements;
    let p1 = p0 + number_element("TotalTime"@, ext.total_time);
    let e1 = e0 + number_value("TotalTime"@, ext.total_time);
    let g1 = Seq::<(Seq<char>, Seq<char>)>::empty() + number_value("TotalTime"@, ext.total_time);
    assert(e1 =~= elements + g1);
    lemma_number_run(p0, e0, "TotalTime"@, ext.total_time);
    let p2 = p1 + number_element("Pages"@, ext.pages);
    let e2 = e1 + number_value("Pages"@, ext.pages);
    let g2 = g1 + number_value("Pages"@, ext.pages);
    assert(e2 =~= elements + g2);
    lemma_number_run(p1, e1, "Pages"@, ext.pages);
    let p3 = p2 + number_element("Words"@, ext.words);
    let e3 = e2 + number_value("Words"@, ext.words);
    let g3 = g2 + number_value("Words"@, ext.words);
    assert(e3 =~= elements + g3);
    lemma_number_run(p2, e2, "Words"@, ext.words);
    let p4 = p3 + number_element("Characters"@, ext.characters);
    let e4 = e3 + number_value("Characters"@, ext.characters);
    let g4 = g3 + number_value("Characters"@, ext.characters);
    assert(e4 =~= elements + g4);
    lemma_number_run(p3, e3, "Characters"@, ext.characters);
    let p5 = p4 + number_element("CharactersWithSpaces"@, ext.characters_with_spaces);
    let e5 = e4 + number_value("CharactersWithSpaces"@, ext.characters_with_spaces);
    let g5 = g4 + number_value("CharactersWithSpaces"@, ext.characters_with_spaces);
    assert(e5 =~= elements + g5);
    lemma_number_run(p4, e4, "CharactersWithSpaces"@, ext.characters_with_spaces);
    let p6 = p5 + number_element("Lines"@, ext.lines);
    let e6 = e5 + number_value("Lines"@, ext.lines);
    let g6 = g5 + number_value("Lines"@, ext.lines);
    assert(e6 =~= elements + g6);
    lemma_number_run(p5, e5, "Lines"@, ext.lines);
    let p7 = p6 + number_element("Paragraphs"@, ext.paragraphs);
    let e7 = e6 + number_value("Paragraphs"@, ext.paragraphs);
    let g7 = g6 + number_value("Paragraphs"@, ext.paragraphs);
    assert(e7 =~= elements + g7);
    lemma_number_run(p6, e6, "Paragraphs"@, ext.paragraphs);
    let p8 = p7 + number_element("DocSecurity"@, ext.doc_security);
    let e8 = e7 + number_value("DocSecurity"@, ext.doc_security);
    let g8 = g7 + number_value("DocSecurity"@, ext.doc_security);
    assert(e8 =~= elements + g8);
    lemma_number_run(p7, e7, "DocSecurity"@, ext.doc_security);
    assert(g8 == number_elements(ext));
}

proof fn lemma_flag_group_run(prefix: Seq<EventView>, elements: Seq<(Seq<char>, Seq<char>)>, ext: ExtendedView)
    requires
        elements_run(Some(elements_start()), prefix) == Some(inside_root(elements)),
        readable_extended(ext),
    ensures
        elements_run(
            Some(elements_start()),
            prefix
            + flag_element("ScaleCrop"@, ext.scale_crop)
            + flag_element("LinksUpToDate"@, ext.links_up_to_date)
            + flag_element("SharedDoc"@, ext.shared_doc)
            + flag_element("HyperlinksChanged"@, ext.hyperlinks_changed),
        ) == Some(inside_root(elements + flag_elements(ext))),
{
    lemma_extended_local_names();
    let p0 = prefix;
    let e0 = elements;
    let p1 = p0 + flag_element("ScaleCrop"@, ext.scale_crop);
    let e1 = e0 + flag_value("ScaleCrop"@, ext.scale_crop);
    let g1 = Seq::<(Seq<char>, Seq<char>)>::empty() + flag_value("ScaleCrop"@, ext.scale_crop);
    assert(e1 =~= elements + g1);
    lemma_flag_run(p0, e0, "ScaleCrop"@, ext.scale_crop);
    let p2 = p1 + flag_element("LinksUpToDate"@, ext.links_up_to_date);
    let e2 = e1 + flag_value("LinksUpToDate"@, ext.links_up_to_date);
    let g2 = g1 + flag_value("LinksUpToDate"@, ext.links_up_to_date);
    assert(e2 =~= elements + g2);
    lemma_flag_run(p1, e1, "LinksUpToDate"@, ext.links_up_to_date);
    let p3 = p2 + flag_element("SharedDoc"@, ext.shared_doc);
    let e3 = e2 + flag_value("SharedDoc"@, ext.shared_doc);
    let g3 = g2 + flag_value("SharedDoc"@, ext.shared_doc);
    assert(e3 =~= elements + g3);
    lemma_flag_run(p2, e2, "SharedDoc"@, ext.shared_doc);
    let p4 = p3 + flag_element("HyperlinksChanged"@, ext.hyperlinks_changed);
    let e4 = e3 + flag_value("HyperlinksChanged"@, ext.hyperlinks_changed);
    let g4 = g3 + flag_value("HyperlinksChanged"@, ext.hyperlinks_changed);
    assert(e4 =~= elements + g4);
    lemma_flag_run(p3, e3, "HyperlinksChanged"@, ext.hyperlinks_changed);
    assert(g4 == flag_elements(ext));
}

/// Collecting the text elements of generated extended properties gives the
/// elements written.
/// Decimal numbers and flags are clean text.
proof fn lemma_clean_number_and_flag(n: nat, b: bool)
    ensures
        readable_item(decimal(n)),
        readable_item(bool_text(b)),
{
    lemma_plain_number_and_flag(n, b);
    lemma_decimal_digits(n);
    let d = decimal(n);
    assert(crate::numbers::is_digit(d[0]));
    assert(crate::numbers::is_digit(d[d.len() - 1]));
    assert(d.last() == d[d.len() - 1]);
    reveal_strlit("true");
    reveal_strlit("false");
}

proof fn lemma_clean_item(name: Seq<char>, text: Seq<char>)
    requires
        readable_item(text),
    ensures
        clean_events(text_element(name, Seq::empty(), text)),
{
    lemma_clean_text_element(name, Seq::empty(), text);
}

proof fn lemma_clean_number(name: Seq<char>, value: Option<u32>)
    ensures
        clean_events(number_element(name, value)),
{
    match value {
        Some(n) => {
            lemma_clean_number_and_flag(n as nat, true);
            lemma_clean_item(name, decimal(n as nat));
        },
        None => {},
    }
}

proof fn lemma_clean_flag(name: Seq<char>, value: Option<bool>)
    ensures
        clean_events(flag_element(name, value)),
{
    match value {
        Some(b) => {
            lemma_clean_number_and_flag(0, b);
            lemma_clean_item(name, bool_text(b));
        },
        None => {},
    }
}

proof fn lemma_clean_tags(events: Seq<EventView>)
    requires
        forall|i: int| 0 <= i < events.len() ==> !(#[trigger] events[i] is Text),
    ensures
        clean_events(events),
{
    assert forall|i: int| 0 <= i < events.len() implies clean_event(#[trigger] events[i]) by {
        assert(!(events[i] is Text));
    }
}

proof fn lemma_clean_pair_list(pairs: Seq<(Seq<char>, u32)>)
    requires
        readable_pairs(pairs),
    ensures
        clean_events(heading_pair_list_events(pairs)),
    decreases pairs.len(),
{
    if pairs.len() > 0 {
        let front = pairs.drop_last();
        let pair = pairs.last();
        assert forall|i: int| 0 <= i < front.len() implies readable_item(#[trigger] front[i].0) by {
            assert(front[i] == pairs[i]);
        }
        lemma_clean_pair_list(front);
        assert(readable_item(pairs[pairs.len() - 1].0));
        lemma_clean_item("vt:lpstr"@, pair.0);
        lemma_clean_number_and_flag(pair.1 as nat, true);
        lemma_clean_item("vt:i4"@, decimal(pair.1 as nat));
        let a = seq![EventView::Start("vt:variant"@, Seq::empty())];
        let b = seq![EventView::End("vt:variant"@), EventView::Start("vt:variant"@, Seq::empty())];
        let c = seq![EventView::End("vt:variant"@)];
        lemma_clean_tags(a);
        lemma_clean_tags(b);
        lemma_clean_tags(c);
        let x = text_element("vt:lpstr"@, Seq::empty(), pair.0);
        let y = text_element("vt:i4"@, Seq::empty(), decimal(pair.1 as nat));
        lemma_clean_events_append(a, x);
        lemma_clean_events_append(a + x, b);
        lemma_clean_events_append(a + x + b, y);
        lemma_clean_events_append(a + x + b + y, c);
        assert(heading_pair_events(pair) == a + x + b + y + c);
        lemma_clean_events_append(heading_pair_list_events(front), heading_pair_events(pair));
    }
}

proof fn lemma_clean_title_list(titles: Seq<Seq<char>>)
    requires
        readable_titles(titles),
    ensures
        clean_events(title_list_events(titles)),
    decreases titles.len(),
{
    if titles.len() > 0 {
        let front = titles.drop_last();
        assert forall|i: int| 0 <= i < front.len() implies readable_item(#[trigger] front[i]) by {
            assert(front[i] == titles[i]);
        }
        lemma_clean_title_list(front);
        assert(readable_item(titles[titles.len() - 1]));
        lemma_clean_item("vt:lpstr"@, titles.last());
        lemma_clean_events_append(title_list_events(front), text_element("vt:lpstr"@, Seq::empty(), titles.last()));
    }
}

/// The events of the numbers, flags and vectors of extended properties.
pub open spec fn extended_plain_events(ext: ExtendedView) -> Seq<EventView> {
    number_element("TotalTime"@, ext.total_time)
        + number_element("Pages"@, ext.pages)
        + number_element("Words"@, ext.words)
        + number_element("Characters"@, ext.characters)
        + number_element("CharactersWithSpaces"@, ext.characters_with_spaces)
        + number_element("Lines"@, ext.lines)
        + number_element("Paragraphs"@, ext.paragraphs)
        + number_element("DocSecurity"@, ext.doc_security)
        + flag_element("ScaleCrop"@, ext.scale_crop)
        + flag_element("LinksUpToDate"@, ext.links_up_to_date)
        + flag_element("SharedDoc"@, ext.shared_doc)
        + flag_element("HyperlinksChanged"@, ext.hyperlinks_changed)
        + heading_pairs_events(ext.heading_pairs)
        + titles_events(ext.titles_of_parts)
}

/// The numbers, flags and vectors of readable extended properties are read
/// back as written, trimming text or not.
proof fn lemma_plain_events_read(ext: ExtendedView)
    requires
        readable_extended(ext),
    ensures
        reader_events(extended_plain_events(ext)) == extended_plain_events(ext),
        trimmed_reader_events(extended_plain_events(ext)) == extended_plain_events(ext),
{
    let n1 = number_element("TotalTime"@, ext.total_time);
    let n2 = number_element("Pages"@, ext.pages);
    let n3 = number_element("Words"@, ext.words);
    let n4 = number_element("Characters"@, ext.characters);
    let n5 = number_element("CharactersWithSpaces"@, ext.characters_with_spaces);
    let n6 = number_element("Lines"@, ext.lines);
    let n7 = number_element("Paragraphs"@, ext.paragraphs);
    let n8 = number_element("DocSecurity"@, ext.doc_security);
    let f1 = flag_element("ScaleCrop"@, ext.scale_crop);
    let f2 = flag_element("LinksUpToDate"@, ext.links_up_to_date);
    let f3 = flag_element("SharedDoc"@, ext.shared_doc);
    let f4 = flag_element("HyperlinksChanged"@, ext.hyperlinks_changed);
    let h = heading_pairs_events(ext.heading_pairs);
    let t = titles_events(ext.titles_of_parts);
    lemma_clean_number("TotalTime"@, ext.total_time);
    lemma_clean_number("Pages"@, ext.pages);
    lemma_clean_number("Words"@, ext.words);
    lemma_clean_number("Characters"@, ext.characters);
    lemma_clean_number("CharactersWithSpaces"@, ext.characters_with_spaces);
    lemma_clean_number("Lines"@, ext.lines);
    lemma_clean_number("Paragraphs"@, ext.paragraphs);
    lemma_clean_number("DocSecurity"@, ext.doc_security);
    lemma_clean_flag("ScaleCrop"@, ext.scale_crop);
    lemma_clean_flag("LinksUpToDate"@, ext.links_up_to_date);
    lemma_clean_flag("SharedDoc"@, ext.shared_doc);
    lemma_clean_flag("HyperlinksChanged"@, ext.hyperlinks_changed);
    if ext.heading_pairs.len() > 0 {
        let a = seq![
            EventView::Start("HeadingPairs"@, Seq::empty()),
            EventView::Start("vt:vector"@, vector_attributes(2 * ext.heading_pairs.len(), "variant"@)),
        ];
        let c = seq![EventView::End("vt:vector"@), EventView::End("HeadingPairs"@)];
        lemma_clean_tags(a);
        lemma_clean_tags(c);
        lemma_clean_pair_list(ext.heading_pairs);
        lemma_clean_events_append(a, heading_pair_list_events(ext.heading_pairs));
        lemma_clean_events_append(a + heading_pair_list_events(ext.heading_pairs), c);
    }
    if ext.titles_of_parts.len() > 0 {
        let a = seq![
            EventView::Start("TitlesOfParts"@, Seq::empty()),
            EventView::Start("vt:vector"@, vector_attributes(ext.titles_of_parts.len(), "lpstr"@)),
        ];
        let c = seq![EventView::End("vt:vector"@), EventView::End("TitlesOfParts"@)];
        lemma_clean_tags(a);
        lemma_clean_tags(c);
        lemma_clean_title_list(ext.titles_of_parts);
        lemma_clean_events_append(a, title_list_events(ext.titles_of_parts));
        lemma_clean_events_append(a + title_list_events(ext.titles_of_parts), c);
    }
    lemma_clean_events_append(n1, n2);
    lemma_clean_events_append(n1 + n2, n3);
    lemma_clean_events_append(n1 + n2 + n3, n4);
    lemma_clean_events_append(n1 + n2 + n3 + n4, n5);
    lemma_clean_events_append(n1 + n2 + n3 + n4 + n5, n6);
    lemma_clean_events_append(n1 + n2 + n3 + n4 + n5 + n6, n7);
    lemma_clean_events_append(n1 + n2 + n3 + n4 + n5 + n6 + n7, n8);
    lemma_clean_events_append(n1 + n2 + n3 + n4 + n5 + n6 + n7 + n8, f1);
    lemma_clean_events_append(n1 + n2 + n3 + n4 + n5 + n6 + n7 + n8 + f1, f2);
    lemma_clean_events_append(n1 + n2 + n3 + n4 + n5 + n6 + n7 + n8 + f1 + f2, f3);
    lemma_clean_events_append(n1 + n2 + n3 + n4 + n5 + n6 + n7 + n8 + f1 + f2 + f3, f4);
    lemma_clean_events_append(n1 + n2 + n3 + n4 + n5 + n6 + n7 + n8 + f1 + f2 + f3 + f4, h);
    lemma_clean_events_append(n1 + n2 + n3 + n4 + n5 + n6 + n7 + n8 + f1 + f2 + f3 + f4 + h, t);
    lemma_clean_events_read(extended_plain_events(ext));
}

/// The text elements, then the numbers, flags and vectors, then the digital
/// signature: the parts of generated extended properties.
proof fn lemma_extended_events_shape(ext: ExtendedView)
    ensures
        extended_events(ext) == seq![standalone_declaration(), EventView::Start("Properties"@, extended_root_attributes())]
            + optional_element("Application"@, Seq::empty(), ext.application)
            + optional_element("AppVersion"@, Seq::empty(), ext.app_version)
            + optional_element("Template"@, Seq::empty(), ext.template)
            + optional_element("Company"@, Seq::empty(), ext.company)
            + extended_plain_events(ext)
            + optional_element("DigSig"@, Seq::empty(), ext.dig_sig)
            + seq![EventView::End("Properties"@)],
{
    let head = seq![standalone_declaration(), EventView::Start("Properties"@, extended_root_attributes())]
        + optional_element("Application"@, Seq::empty(), ext.application)
        + optional_element("AppVersion"@, Seq::empty(), ext.app_version)
        + optional_element("Template"@, Seq::empty(), ext.template)
        + optional_element("Company"@, Seq::empty(), ext.company);
    lemma_plain_events_appended(head, ext);
}

/// Appending the numbers, flags and vectors one after another appends their
/// events.
proof fn lemma_plain_events_appended(q: Seq<EventView>, ext: ExtendedView)
    ensures
        q
            + number_element("TotalTime"@, ext.total_time)
            + number_element("Pages"@, ext.pages)
            + number_element("Words"@, ext.words)
            + number_element("Characters"@, ext.characters)
            + number_element("CharactersWithSpaces"@, ext.characters_with_spaces)
            + number_element("Lines"@, ext.lines)
            + number_element("Paragraphs"@, ext.paragraphs)
            + number_element("DocSecurity"@, ext.doc_security)
            + flag_element("ScaleCrop"@, ext.scale_crop)
            + flag_element("LinksUpToDate"@, ext.links_up_to_date)
            + flag_element("SharedDoc"@, ext.shared_doc)
            + flag_element("HyperlinksChanged"@, ext.hyperlinks_changed)
            + heading_pairs_events(ext.heading_pairs)
            + titles_events(ext.titles_of_parts) == q + extended_plain_events(ext),
{
    let x0 = number_element("TotalTime"@, ext.total_time);
    let x1 = number_element("Pages"@, ext.pages);
    let x2 = number_element("Words"@, ext.words);
    let x3 = number_element("Characters"@, ext.characters);
    let x4 = number_element("CharactersWithSpaces"@, ext.characters_with_spaces);
    let x5 = number_element("Lines"@, ext.lines);
    let x6 = number_element("Paragraphs"@, ext.paragraphs);
    let x7 = number_element("DocSecurity"@, ext.doc_security);
    let x8 = flag_element("ScaleCrop"@, ext.scale_crop);
    let x9 = flag_element("LinksUpToDate"@, ext.links_up_to_date);
    let x10 = flag_element("SharedDoc"@, ext.shared_doc);
    let x11 = flag_element("HyperlinksChanged"@, ext.hyperlinks_changed);
    let x12 = heading_pairs_events(ext.heading_pairs);
    let x13 = titles_events(ext.titles_of_parts);
    let a0 = x0;
    let a1 = a0 + x1;
    vstd::seq_lib::lemma_concat_associative(q, a0, x1);
    let a2 = a1 + x2;
    vstd::seq_lib::lemma_concat_associative(q, a1, x2);
    let a3 = a2 + x3;
    vstd::seq_lib::lemma_concat_associative(q, a2, x3);
    let a4 = a3 + x4;
    vstd::seq_lib::lemma_concat_associative(q, a3, x4);
    let a5 = a4 + x5;
    vstd::seq_lib::lemma_concat_associative(q, a4, x5);
    let a6 = a5 + x6;
    vstd::seq_lib::lemma_concat_associative(q, a5, x6);
    let a7 = a6 + x7;
    vstd::seq_lib::lemma_concat_associative(q, a6, x7);
    let a8 = a7 + x8;
    vstd::seq_lib::lemma_concat_associative(q, a7, x8);
    let a9 = a8 + x9;
    vstd::seq_lib::lemma_concat_associative(q, a8, x9);
    let a10 = a9 + x10;
    vstd::seq_lib::lemma_concat_associative(q, a9, x10);
    let a11 = a10 + x11;
    vstd::seq_lib::lemma_concat_associative(q, a10, x11);
    let a12 = a11 + x12;
    vstd::seq_lib::lemma_concat_associative(q, a11, x12);
    let a13 = a12 + x13;
    vstd::seq_lib::lemma_concat_associative(q, a12, x13);
}

proof fn lemma_extended_events_elements(ext: ExtendedView)
    requires
        readable_extended(ext),
        references_resolve(),
    ensures
        events_elements(reader_events(extended_events(ext))) == Some(extended_elements(ext)),
{
    lemma_extended_local_names();
    let start = Some(elements_start());
    let none = Seq::<char>::empty();
    let d = standalone_declaration();
    let r = EventView::Start("Properties"@, extended_root_attributes());
    let p0 = seq![d, r];
    assert(p0 =~= seq![d] + seq![r]);
    lemma_reader_events_append(seq![d], seq![r]);
    lemma_reader_events_one(d);
    lemma_reader_events_one(r);
    assert(reader_events(p0) =~= p0);
    lemma_elements_run_append(start, seq![d], seq![r]);
    lemma_elements_run_one(start, d);
    lemma_elements_run_one(elements_step(start, d), r);
    let e0 = Seq::<(Seq<char>, Seq<char>)>::empty();
    assert(elements_run(start, reader_events(p0)) == Some(inside_root(e0)));
    let p1 = p0
        + optional_element("Application"@, Seq::empty(), ext.application)
        + optional_element("AppVersion"@, Seq::empty(), ext.app_version)
        + optional_element("Template"@, Seq::empty(), ext.template)
        + optional_element("Company"@, Seq::empty(), ext.company);
    lemma_text_group_run(p0, e0, ext);
    let e1 = e0 + text_elements(ext);
    let q1 = reader_events(p1);
    let q2 = q1
        + number_element("TotalTime"@, ext.total_time)
        + number_element("Pages"@, ext.pages)
        + number_element("Words"@, ext.words)
        + number_element("Characters"@, ext.characters)
        + number_element("CharactersWithSpaces"@, ext.characters_with_spaces)
        + number_element("Lines"@, ext.lines)
        + number_element("Paragraphs"@, ext.paragraphs)
        + number_element("DocSecurity"@, ext.doc_security);
    lemma_number_group_run(q1, e1, ext);
    let e2 = e1 + number_elements(ext);
    let q3 = q2
        + flag_element("ScaleCrop"@, ext.scale_crop)
        + flag_element("LinksUpToDate"@, ext.links_up_to_date)
        + flag_element("SharedDoc"@, ext.shared_doc)
        + flag_element("HyperlinksChanged"@, ext.hyperlinks_changed);
    lemma_flag_group_run(q2, e2, ext);
    let e3 = e2 + flag_elements(ext);
    let q4 = q3 + heading_pairs_events(ext.heading_pairs);
    lemma_heading_pairs_run(q3, e3, ext.heading_pairs);
    let e4 = e3 + vector_value("HeadingPairs"@, ext.heading_pairs.len() > 0, heading_pairs_text(ext.heading_pairs));
    let q5 = q4 + titles_events(ext.titles_of_parts);
    lemma_titles_run(q4, e4, ext.titles_of_parts);
    let e5 = e4 + vector_value("TitlesOfParts"@, ext.titles_of_parts.len() > 0, titles_text(ext.titles_of_parts));
    let plain = extended_plain_events(ext);
    let p5 = p1 + plain;
    lemma_plain_events_read(ext);
    lemma_reader_events_append(p1, plain);
    lemma_plain_events_appended(q1, ext);
    assert(elements_run(start, reader_events(p5)) == Some(inside_root(e5)));
    let p6 = p5 + optional_element("DigSig"@, none, ext.dig_sig);
    lemma_optional_pieces_run(p5, e5, "DigSig"@, none, ext.dig_sig);
    let e6 = e5 + named_value("DigSig"@, ext.dig_sig);
    let end = EventView::End("Properties"@);
    let events = p6 + seq![end];
    lemma_reader_events_append(p6, seq![end]);
    lemma_reader_events_one(end);
    let read = reader_events(events);
    lemma_elements_run_append(start, reader_events(p6), seq![end]);
    lemma_elements_run_one(Some(inside_root(e6)), end);
    lemma_extended_events_shape(ext);
    lemma_elements_fold_run(read, read.len() as int);
    assert(read.take(read.len() as int) =~= read);
    assert(e0 + text_elements(ext) =~= text_elements(ext));
    assert(e3 + vector_value("HeadingPairs"@, ext.heading_pairs.len() > 0, heading_pairs_text(ext.heading_pairs))
        + vector_value("TitlesOfParts"@, ext.titles_of_parts.len() > 0, titles_text(ext.titles_of_parts))
        =~= e3 + vector_elements(ext));
    assert(e6 == extended_elements(ext));
}

/// Reading the vector properties from a given state.
pub open spec fn vectors_run(state: Option<VectorsState>, events: Seq<EventView>) -> Option<VectorsState>
    decreases events.len(),
{
    if events.len() == 0 {
        state
    } else {
        vectors_step(vectors_run(state, events.drop_last()), events.last())
    }
}

/// The state reading the vector properties starts from.
pub open spec fn vectors_start() -> VectorsState {
    VectorsState { property: None, values: Seq::empty(), heading_pairs: None, titles: None }
}

proof fn lemma_vectors_fold_run(events: Seq<EventView>, n: int)
    requires
        0 <= n <= events.len(),
    ensures
        vectors_fold(events, n) == vectors_run(Some(vectors_start()), events.take(n)),
    decreases n,
{
    if n > 0 {
        lemma_vectors_fold_run(events, n - 1);
        assert(events.take(n).drop_last() =~= events.take(n - 1));
        assert(events.take(n).last() == events[n - 1]);
    } else {
        assert(events.take(0) =~= Seq::<EventView>::empty());
    }
}

proof fn lemma_vectors_run_append(state: Option<VectorsState>, a: Seq<EventView>, b: Seq<EventView>)
    ensures
        vectors_run(state, a + b) == vectors_run(vectors_run(state, a), b),
    decreases b.len(),
{
    if b.len() == 0 {
        assert(a + b =~= a);
    } else {
        lemma_vectors_run_append(state, a, b.drop_last());
        assert((a + b).drop_last() =~= a + b.drop_last());
        assert((a + b).last() == b.last());
    }
}

proof fn lemma_vectors_run_one(state: Option<VectorsState>, e: EventView)
    ensures
        vectors_run(state, seq![e]) == vectors_step(state, e),
{
    assert(seq![e].drop_last() =~= Seq::<EventView>::empty());
    assert(vectors_run(state, seq![e].drop_last()) == state);
    assert(seq![e].last() == e);
}

/// Whether a local name is neither of the vector properties.
pub open spec fn other_name(name: Seq<char>) -> bool {
    local_name(name) != "HeadingPairs"@ && local_name(name) != "TitlesOfParts"@
}

/// A tag of another name changes no state of reading the vectors, inside a
/// vector or not.
proof fn lemma_vectors_other_tag(st: VectorsState, name: Seq<char>, attributes: Seq<char>)
    requires
        other_name(name),
    ensures
        vectors_run(Some(st), seq![EventView::Start(name, attributes)]) == Some(st),
        vectors_run(Some(st), seq![EventView::End(name)]) == Some(st),
{
    lemma_vectors_run_one(Some(st), EventView::Start(name, attributes));
    lemma_vectors_run_one(Some(st), EventView::End(name));
}

/// A plain text element of another name outside the vectors changes
/// nothing.
proof fn lemma_vectors_outside_text(st: VectorsState, name: Seq<char>, attributes: Seq<char>, text: Seq<char>)
    requires
        st.property is None,
        other_name(name),
    ensures
        vectors_run(Some(st), text_element(name, attributes, text)) == Some(st),
{
    let a = EventView::Start(name, attributes);
    let b = EventView::Text(escaped_text(text));
    let c = EventView::End(name);
    assert(text_element(name, attributes, text) =~= seq![a] + seq![b] + seq![c]);
    lemma_vectors_run_append(Some(st), seq![a] + seq![b], seq![c]);
    lemma_vectors_run_append(Some(st), seq![a], seq![b]);
    lemma_vectors_other_tag(st, name, attributes);
    lemma_vectors_run_one(Some(st), b);
}

/// A plain, non-empty text element of another name inside a vector adds
/// its text to the vector's texts.
proof fn lemma_vectors_inside_text(st: VectorsState, name: Seq<char>, attributes: Seq<char>, text: Seq<char>)
    requires
        st.property is Some,
        other_name(name),
        text.len() > 0,
        plain_text(text),
    ensures
        vectors_run(Some(st), text_element(name, attributes, text)) == Some(
            VectorsState { values: st.values.push(text), ..st },
        ),
{
    lemma_plain_decoded(text);
    let a = EventView::Start(name, attributes);
    let b = EventView::Text(escaped_text(text));
    let c = EventView::End(name);
    let st2 = VectorsState { values: st.values.push(text), ..st };
    assert(text_element(name, attributes, text) =~= seq![a] + seq![b] + seq![c]);
    lemma_vectors_run_append(Some(st), seq![a] + seq![b], seq![c]);
    lemma_vectors_run_append(Some(st), seq![a], seq![b]);
    lemma_vectors_other_tag(st, name, attributes);
    lemma_vectors_run_one(Some(st), b);
    lemma_vectors_other_tag(st2, name, attributes);
}

proof fn lemma_other_names()
    ensures
        other_name("Properties"@),
        other_name("Application"@),
        other_name("AppVersion"@),
        other_name("Template"@),
        other_name("Company"@),
        other_name("TotalTime"@),
        other_name("Pages"@),
        other_name("Words"@),
        other_name("Characters"@),
        other_name("CharactersWithSpaces"@),
        other_name("Lines"@),
        other_name("Paragraphs"@),
        other_name("DocSecurity"@),
        other_name("ScaleCrop"@),
        other_name("LinksUpToDate"@),
        other_name("SharedDoc"@),
        other_name("HyperlinksChanged"@),
        other_name("DigSig"@),
        other_name("vt:vector"@),
        other_name("vt:variant"@),
        other_name("vt:lpstr"@),
        other_name("vt:i4"@),
        local_name("HeadingPairs"@) == "HeadingPairs"@,
        local_name("TitlesOfParts"@) == "TitlesOfParts"@,
        "HeadingPairs"@ != "TitlesOfParts"@,
{
    lemma_extended_local_names();
    reveal_strlit("Properties");
    reveal_strlit("Application");
    reveal_strlit("AppVersion");
    reveal_strlit("Template");
    reveal_strlit("Company");
    reveal_strlit("TotalTime");
    reveal_strlit("Pages");
    reveal_strlit("Words");
    reveal_strlit("Characters");
    reveal_strlit("CharactersWithSpaces");
    reveal_strlit("Lines");
    reveal_strlit("Paragraphs");
    reveal_strlit("DocSecurity");
    reveal_strlit("ScaleCrop");
    reveal_strlit("LinksUpToDate");
    reveal_strlit("SharedDoc");
    reveal_strlit("HyperlinksChanged");
    reveal_strlit("DigSig");
    reveal_strlit("vector");
    reveal_strlit("variant");
    reveal_strlit("lpstr");
    reveal_strlit("i4");
    reveal_strlit("HeadingPairs");
    reveal_strlit("TitlesOfParts");
    assert("LinksUpToDate"@[0] == 'L');
    assert("TitlesOfParts"@[0] == 'T');
    assert("HeadingPairs"@.len() != "TitlesOfParts"@.len());
}

/// The texts of heading pairs as a vector holds them: each name, then its
/// count in decimal.
pub open spec fn pair_texts(pairs: Seq<(Seq<char>, u32)>) -> Seq<Seq<char>>
    decreases pairs.len(),
{
    if pairs.len() == 0 {
        Seq::empty()
    } else {
        pair_texts(pairs.drop_last()).push(pairs.last().0).push(decimal(pairs.last().1 as nat))
    }
}

proof fn lemma_pair_texts_read_back(pairs: Seq<(Seq<char>, u32)>)
    ensures
        pair_texts(pairs).len() == 2 * pairs.len(),
        heading_pairs_of(pair_texts(pairs)) == Some(pairs),
    decreases pairs.len(),
{
    if pairs.len() > 0 {
        let front = pairs.drop_last();
        lemma_pair_texts_read_back(front);
        let v = pair_texts(pairs);
        law_decimal_round_trip(pairs.last().1);
        assert(v.take(v.len() - 2) =~= pair_texts(front));
        assert(v[v.len() - 2] == pairs.last().0);
        assert(front.push(pairs.last()) =~= pairs);
    } else {
        assert(pairs =~= Seq::<(Seq<char>, u32)>::empty());
    }
}

proof fn lemma_vectors_pair_run(st: VectorsState, pair: (Seq<char>, u32))
    requires
        st.property == Some(VectorKind::HeadingPairs),
        pair.0.len() > 0,
        plain_text(pair.0),
    ensures
        vectors_run(Some(st), heading_pair_events(pair)) == Some(
            VectorsState { values: st.values.push(pair.0).push(decimal(pair.1 as nat)), ..st },
        ),
{
    lemma_other_names();
    let none = Seq::<char>::empty();
    let count = decimal(pair.1 as nat);
    lemma_plain_number_and_flag(pair.1 as nat, true);
    let a = seq![EventView::Start("vt:variant"@, none)];
    let b = text_element("vt:lpstr"@, none, pair.0);
    let c = seq![EventView::End("vt:variant"@)];
    let d = seq![EventView::Start("vt:variant"@, none)];
    let e = text_element("vt:i4"@, none, count);
    let f = seq![EventView::End("vt:variant"@)];
    assert(heading_pair_events(pair) =~= a + b + c + d + e + f);
    let s0 = Some(st);
    lemma_vectors_run_append(s0, a + b + c + d + e, f);
    lemma_vectors_run_append(s0, a + b + c + d, e);
    lemma_vectors_run_append(s0, a + b + c, d);
    lemma_vectors_run_append(s0, a + b, c);
    lemma_vectors_run_append(s0, a, b);
    let st1 = VectorsState { values: st.values.push(pair.0), ..st };
    let st2 = VectorsState { values: st1.values.push(count), ..st };
    lemma_vectors_other_tag(st, "vt:variant"@, none);
    lemma_vectors_inside_text(st, "vt:lpstr"@, none, pair.0);
    lemma_vectors_other_tag(st1, "vt:variant"@, none);
    lemma_vectors_inside_text(st1, "vt:i4"@, none, count);
    lemma_vectors_other_tag(st2, "vt:variant"@, none);
}

proof fn lemma_vectors_pair_list_run(st: VectorsState, pairs: Seq<(Seq<char>, u32)>)
    requires
        st.property == Some(VectorKind::HeadingPairs),
        readable_pairs(pairs),
    ensures
        vectors_run(Some(st), heading_pair_list_events(pairs)) == Some(
            VectorsState { values: st.values + pair_texts(pairs), ..st },
        ),
    decreases pairs.len(),
{
    if pairs.len() == 0 {
        assert(st.values + pair_texts(pairs) =~= st.values);
    } else {
        let front = pairs.drop_last();
        assert forall|i: int| 0 <= i < front.len() implies #[trigger] front[i].0.len() > 0 && plain_text(front[i].0) by {
            assert(front[i] == pairs[i]);
        }
        lemma_vectors_pair_list_run(st, front);
        lemma_vectors_run_append(Some(st), heading_pair_list_events(front), heading_pair_events(pairs.last()));
        assert(pairs[pairs.len() - 1].0.len() > 0 && plain_text(pairs[pairs.len() - 1].0));
        let mid = VectorsState { values: st.values + pair_texts(front), ..st };
        lemma_vectors_pair_run(mid, pairs.last());
        assert(mid.values.push(pairs.last().0).push(decimal(pairs.last().1 as nat)) =~= st.values + pair_texts(pairs));
    }
}

proof fn lemma_vectors_title_list_run(st: VectorsState, titles: Seq<Seq<char>>)
    requires
        st.property == Some(VectorKind::TitlesOfParts),
        readable_titles(titles),
    ensures
        vectors_run(Some(st), title_list_events(titles)) == Some(VectorsState { values: st.values + titles, ..st }),
    decreases titles.len(),
{
    lemma_other_names();
    if titles.len() == 0 {
        assert(st.values + titles =~= st.values);
    } else {
        let front = titles.drop_last();
        assert forall|i: int| 0 <= i < front.len() implies #[trigger] front[i].len() > 0 && plain_text(front[i]) by {
            assert(front[i] == titles[i]);
        }
        lemma_vectors_title_list_run(st, front);
        let last = text_element("vt:lpstr"@, Seq::empty(), titles.last());
        lemma_vectors_run_append(Some(st), title_list_events(front), last);
        assert(titles[titles.len() - 1].len() > 0 && plain_text(titles[titles.len() - 1]));
        let mid = VectorsState { values: st.values + front, ..st };
        lemma_vectors_inside_text(mid, "vt:lpstr"@, Seq::empty(), titles.last());
        assert(mid.values.push(titles.last()) =~= st.values + titles);
    }
}


/// Texts and references outside the vectors change no state of reading
/// them.
proof fn lemma_vectors_pieces_outside(st: VectorsState, pieces: Seq<EventView>)
    requires
        st.property is None,
        pieces_only(pieces),
    ensures
        vectors_run(Some(st), pieces) == Some(st),
    decreases pieces.len(),
{
    if pieces.len() > 0 {
        let front = pieces.drop_last();
        assert forall|i: int| 0 <= i < front.len() implies (#[trigger] front[i] is Text || front[i] is GeneralRef) by {
            assert(front[i] == pieces[i]);
        }
        lemma_vectors_pieces_outside(st, front);
        assert(pieces.last() == pieces[pieces.len() - 1]);
    }
}

/// An optional element of another name outside the vectors, as a reader
/// that trims text gives it, changes nothing.
proof fn lemma_vectors_optional_read(st: VectorsState, name: Seq<char>, attributes: Seq<char>, value: Option<Seq<char>>)
    requires
        st.property is None,
        other_name(name),
    ensures
        vectors_run(Some(st), trimmed_reader_events(optional_element(name, attributes, value))) == Some(st),
{
    let events = optional_element(name, attributes, value);
    if value is Some && value.unwrap().len() > 0 {
        let v = value.unwrap();
        let a = EventView::Start(name, attributes);
        let b = EventView::Text(escaped_text(v));
        let c = EventView::End(name);
        assert(events =~= seq![a] + seq![b] + seq![c]);
        lemma_trimmed_reader_events_append(seq![a] + seq![b], seq![c]);
        lemma_trimmed_reader_events_append(seq![a], seq![b]);
        lemma_trimmed_reader_events_one(a);
        lemma_trimmed_reader_events_one(b);
        lemma_trimmed_reader_events_one(c);
        let pieces = trimmed_pieces(text_pieces(escaped_text(v)));
        lemma_text_pieces_only(escaped_text(v));
        lemma_trimmed_pieces_only(text_pieces(escaped_text(v)));
        lemma_vectors_run_append(Some(st), seq![a] + pieces, seq![c]);
        lemma_vectors_run_append(Some(st), seq![a], pieces);
        lemma_vectors_other_tag(st, name, attributes);
        lemma_vectors_pieces_outside(st, pieces);
    } else {
        assert(events =~= Seq::<EventView>::empty());
        assert(trimmed_reader_events(events) =~= Seq::<EventView>::empty());
    }
}

proof fn lemma_vectors_number(st: VectorsState, name: Seq<char>, value: Option<u32>)
    requires
        st.property is None,
        other_name(name),
    ensures
        vectors_run(Some(st), number_element(name, value)) == Some(st),
{
    match value {
        Some(n) => lemma_vectors_outside_text(st, name, Seq::empty(), decimal(n as nat)),
        None => {},
    }
}

proof fn lemma_vectors_flag(st: VectorsState, name: Seq<char>, value: Option<bool>)
    requires
        st.property is None,
        other_name(name),
    ensures
        vectors_run(Some(st), flag_element(name, value)) == Some(st),
{
    match value {
        Some(b) => lemma_vectors_outside_text(st, name, Seq::empty(), bool_text(b)),
        None => {},
    }
}

/// Reading the vectors of one vector property: its start tag begins the
/// vector, the items add their texts, its end tag sets the property.
proof fn lemma_vectors_property_run(
    st: VectorsState,
    name: Seq<char>,
    attributes: Seq<char>,
    items: Seq<EventView>,
    inside: VectorsState,
    finished: Option<VectorsState>,
)
    requires
        st.property is None,
        local_name(name) == name,
        name == "HeadingPairs"@ || name == "TitlesOfParts"@,
        inside.property == Some(if name == "HeadingPairs"@ {
            VectorKind::HeadingPairs
        } else {
            VectorKind::TitlesOfParts
        }),
        vectors_run(
            Some(VectorsState { property: inside.property, values: Seq::empty(), ..st }),
            items,
        ) == Some(inside),
        vectors_step(Some(inside), EventView::End(name)) == finished,
    ensures
        vectors_run(
            Some(st),
            seq![EventView::Start(name, Seq::empty()), EventView::Start("vt:vector"@, attributes)] + items + seq![
                EventView::End("vt:vector"@),
                EventView::End(name),
            ],
        ) == finished,
{
    lemma_other_names();
    let s0 = Some(st);
    let a = EventView::Start(name, Seq::empty());
    let b = EventView::Start("vt:vector"@, attributes);
    let c = EventView::End("vt:vector"@);
    let d = EventView::End(name);
    assert(seq![a, b] =~= seq![a] + seq![b]);
    assert(seq![c, d] =~= seq![c] + seq![d]);
    let events = seq![a, b] + items + seq![c, d];
    assert(events =~= seq![a] + seq![b] + items + seq![c] + seq![d]);
    lemma_vectors_run_append(s0, seq![a] + seq![b] + items + seq![c], seq![d]);
    lemma_vectors_run_append(s0, seq![a] + seq![b] + items, seq![c]);
    lemma_vectors_run_append(s0, seq![a] + seq![b], items);
    lemma_vectors_run_append(s0, seq![a], seq![b]);
    lemma_vectors_run_one(s0, a);
    let opened = VectorsState { property: inside.property, values: Seq::empty(), ..st };
    assert(vectors_step(s0, a) == Some(opened));
    lemma_vectors_other_tag(opened, "vt:vector"@, attributes);
    lemma_vectors_other_tag(inside, "vt:vector"@, attributes);
    lemma_vectors_run_one(Some(inside), d);
}

proof fn lemma_vectors_heading_pairs(st: VectorsState, pairs: Seq<(Seq<char>, u32)>)
    requires
        st.property is None,
        readable_pairs(pairs),
    ensures
        vectors_run(Some(st), heading_pairs_events(pairs)) == Some(
            if pairs.len() > 0 {
                VectorsState { property: None, values: pair_texts(pairs), heading_pairs: Some(pairs), ..st }
            } else {
                st
            },
        ),
{
    lemma_other_names();
    if pairs.len() > 0 {
        let opened = VectorsState { property: Some(VectorKind::HeadingPairs), values: Seq::empty(), ..st };
        lemma_vectors_pair_list_run(opened, pairs);
        let inside = VectorsState { values: Seq::empty() + pair_texts(pairs), ..opened };
        assert(Seq::<Seq<char>>::empty() + pair_texts(pairs) =~= pair_texts(pairs));
        lemma_pair_texts_read_back(pairs);
        lemma_vectors_property_run(
            st,
            "HeadingPairs"@,
            vector_attributes(2 * pairs.len(), "variant"@),
            heading_pair_list_events(pairs),
            inside,
            Some(VectorsState { property: None, values: pair_texts(pairs), heading_pairs: Some(pairs), ..st }),
        );
    } else {
        assert(heading_pairs_events(pairs) =~= Seq::<EventView>::empty());
    }
}

proof fn lemma_vectors_titles(st: VectorsState, titles: Seq<Seq<char>>)
    requires
        st.property is None,
        readable_titles(titles),
    ensures
        vectors_run(Some(st), titles_events(titles)) == Some(
            if titles.len() > 0 {
                VectorsState { property: None, values: Seq::empty(), titles: Some(titles), ..st }
            } else {
                st
            },
        ),
{
    lemma_other_names();
    if titles.len() > 0 {
        let opened = VectorsState { property: Some(VectorKind::TitlesOfParts), values: Seq::empty(), ..st };
        lemma_vectors_title_list_run(opened, titles);
        let inside = VectorsState { values: Seq::empty() + titles, ..opened };
        assert(Seq::<Seq<char>>::empty() + titles =~= titles);
        lemma_vectors_property_run(
            st,
            "TitlesOfParts"@,
            vector_attributes(titles.len(), "lpstr"@),
            title_list_events(titles),
            inside,
            Some(VectorsState { property: None, values: Seq::empty(), titles: Some(titles), ..st }),
        );
    } else {
        assert(titles_events(titles) =~= Seq::<EventView>::empty());
    }
}

/// Reading the vectors of generated extended properties gives their heading
/// pairs and titles, each when there are any.
proof fn lemma_extended_events_vectors(ext: ExtendedView)
    requires
        readable_extended(ext),
    ensures
        vectors_fold(trimmed_reader_events(extended_events(ext)), trimmed_reader_events(extended_events(ext)).len() as int) matches Some(st) && st.heading_pairs == (
        if ext.heading_pairs.len() > 0 {
            Some(ext.heading_pairs)
        } else {
            None
        }) && st.titles == (if ext.titles_of_parts.len() > 0 {
            Some(ext.titles_of_parts)
        } else {
            None
        }),
{
    lemma_other_names();
    let none = Seq::<char>::empty();
    let v0 = vectors_start();
    let start = Some(v0);
    let d = standalone_declaration();
    let r = EventView::Start("Properties"@, extended_root_attributes());
    let p0 = seq![d, r];
    assert(p0 =~= seq![d] + seq![r]);
    lemma_vectors_run_append(start, seq![d], seq![r]);
    lemma_vectors_run_one(start, d);
    lemma_vectors_other_tag(v0, "Properties"@, extended_root_attributes());
    assert(vectors_run(start, p0) == start);
    lemma_trimmed_reader_events_append(seq![d], seq![r]);
    lemma_trimmed_reader_events_one(d);
    lemma_trimmed_reader_events_one(r);
    assert(trimmed_reader_events(p0) =~= p0);
    let o1 = optional_element("Application"@, none, ext.application);
    let o2 = optional_element("AppVersion"@, none, ext.app_version);
    let o3 = optional_element("Template"@, none, ext.template);
    let o4 = optional_element("Company"@, none, ext.company);
    let q1 = p0 + trimmed_reader_events(o1);
    lemma_vectors_run_append(start, p0, trimmed_reader_events(o1));
    lemma_vectors_optional_read(v0, "Application"@, none, ext.application);
    let q2 = q1 + trimmed_reader_events(o2);
    lemma_vectors_run_append(start, q1, trimmed_reader_events(o2));
    lemma_vectors_optional_read(v0, "AppVersion"@, none, ext.app_version);
    let q3 = q2 + trimmed_reader_events(o3);
    lemma_vectors_run_append(start, q2, trimmed_reader_events(o3));
    lemma_vectors_optional_read(v0, "Template"@, none, ext.template);
    let p4 = q3 + trimmed_reader_events(o4);
    lemma_vectors_run_append(start, q3, trimmed_reader_events(o4));
    lemma_vectors_optional_read(v0, "Company"@, none, ext.company);
    let head = p0 + o1 + o2 + o3 + o4;
    lemma_trimmed_reader_events_append(p0, o1);
    lemma_trimmed_reader_events_append(p0 + o1, o2);
    lemma_trimmed_reader_events_append(p0 + o1 + o2, o3);
    lemma_trimmed_reader_events_append(p0 + o1 + o2 + o3, o4);
    assert(trimmed_reader_events(head) == p4);
    let p5 = p4 + number_element("TotalTime"@, ext.total_time);
    lemma_vectors_run_append(start, p4, number_element("TotalTime"@, ext.total_time));
    lemma_vectors_number(v0, "TotalTime"@, ext.total_time);
    let p6 = p5 + number_element("Pages"@, ext.pages);
    lemma_vectors_run_append(start, p5, number_element("Pages"@, ext.pages));
    lemma_vectors_number(v0, "Pages"@, ext.pages);
    let p7 = p6 + number_element("Words"@, ext.words);
    lemma_vectors_run_append(start, p6, number_element("Words"@, ext.words));
    lemma_vectors_number(v0, "Words"@, ext.words);
    let p8 = p7 + number_element("Characters"@, ext.characters);
    lemma_vectors_run_append(start, p7, number_element("Characters"@, ext.characters));
    lemma_vectors_number(v0, "Characters"@, ext.characters);
    let p9 = p8 + number_element("CharactersWithSpaces"@, ext.characters_with_spaces);
    lemma_vectors_run_append(start, p8, number_element("CharactersWithSpaces"@, ext.characters_with_spaces));
    lemma_vectors_number(v0, "CharactersWithSpaces"@, ext.characters_with_spaces);
    let p10 = p9 + number_element("Lines"@, ext.lines);
    lemma_vectors_run_append(start, p9, number_element("Lines"@, ext.lines));
    lemma_vectors_number(v0, "Lines"@, ext.lines);
    let p11 = p10 + number_element("Paragraphs"@, ext.paragraphs);
    lemma_vectors_run_append(start, p10, number_element("Paragraphs"@, ext.paragraphs));
    lemma_vectors_number(v0, "Paragraphs"@, ext.paragraphs);
    let p12 = p11 + number_element("DocSecurity"@, ext.doc_security);
    lemma_vectors_run_append(start, p11, number_element("DocSecurity"@, ext.doc_security));
    lemma_vectors_number(v0, "DocSecurity"@, ext.doc_security);
    let p13 = p12 + flag_element("ScaleCrop"@, ext.scale_crop);
    lemma_vectors_run_append(start, p12, flag_element("ScaleCrop"@, ext.scale_crop));
    lemma_vectors_flag(v0, "ScaleCrop"@, ext.scale_crop);
    let p14 = p13 + flag_element("LinksUpToDate"@, ext.links_up_to_date);
    lemma_vectors_run_append(start, p13, flag_element("LinksUpToDate"@, ext.links_up_to_date));
    lemma_vectors_flag(v0, "LinksUpToDate"@, ext.links_up_to_date);
    let p15 = p14 + flag_element("SharedDoc"@, ext.shared_doc);
    lemma_vectors_run_append(start, p14, flag_element("SharedDoc"@, ext.shared_doc));
    lemma_vectors_flag(v0, "SharedDoc"@, ext.shared_doc);
    let p16 = p15 + flag_element("HyperlinksChanged"@, ext.hyperlinks_changed);
    lemma_vectors_run_append(start, p15, flag_element("HyperlinksChanged"@, ext.hyperlinks_changed));
    lemma_vectors_flag(v0, "HyperlinksChanged"@, ext.hyperlinks_changed);
    assert(vectors_run(start, p16) == start);
    let p17 = p16 + heading_pairs_events(ext.heading_pairs);
    lemma_vectors_run_append(start, p16, heading_pairs_events(ext.heading_pairs));
    lemma_vectors_heading_pairs(v0, ext.heading_pairs);
    let v1 = if ext.heading_pairs.len() > 0 {
        VectorsState { property: None, values: pair_texts(ext.heading_pairs), heading_pairs: Some(ext.heading_pairs), ..v0 }
    } else {
        v0
    };
    let p18 = p17 + titles_events(ext.titles_of_parts);
    lemma_vectors_run_append(start, p17, titles_events(ext.titles_of_parts));
    lemma_vectors_titles(v1, ext.titles_of_parts);
    let v2 = if ext.titles_of_parts.len() > 0 {
        VectorsState { property: None, values: Seq::empty(), titles: Some(ext.titles_of_parts), ..v1 }
    } else {
        v1
    };
    let dig = optional_element("DigSig"@, none, ext.dig_sig);
    let p19 = p18 + trimmed_reader_events(dig);
    lemma_vectors_run_append(start, p18, trimmed_reader_events(dig));
    lemma_vectors_optional_read(v2, "DigSig"@, none, ext.dig_sig);
    let end = EventView::End("Properties"@);
    let events = p19 + seq![end];
    lemma_vectors_run_append(start, p19, seq![end]);
    lemma_vectors_other_tag(v2, "Properties"@, none);
    let plain = extended_plain_events(ext);
    lemma_plain_events_read(ext);
    lemma_plain_events_appended(p4, ext);
    lemma_extended_events_shape(ext);
    lemma_trimmed_reader_events_append(head, plain);
    lemma_trimmed_reader_events_append(head + plain, dig);
    lemma_trimmed_reader_events_append(head + plain + dig, seq![end]);
    lemma_trimmed_reader_events_one(end);
    assert(trimmed_reader_events(extended_events(ext)) == events);
    lemma_vectors_fold_run(events, events.len() as int);
    assert(events.take(events.len() as int) =~= events);
    assert(vectors_fold(events, events.len() as int) == Some(v2));
}


/// Each known name sets its extended property; the vector names set none.
proof fn lemma_extended_with_names(e: ExtendedView, v: Seq<char>)
    ensures
        extended_with(e, "Application"@, v) == (ExtendedView { application: Some(v), ..e }),
        extended_with(e, "AppVersion"@, v) == (ExtendedView { app_version: Some(v), ..e }),
        extended_with(e, "Template"@, v) == (ExtendedView { template: Some(v), ..e }),
        extended_with(e, "Company"@, v) == (ExtendedView { company: Some(v), ..e }),
        extended_with(e, "DigSig"@, v) == (ExtendedView { dig_sig: Some(v), ..e }),
        extended_with(e, "TotalTime"@, v) == (ExtendedView { total_time: parsed_u32(v), ..e }),
        extended_with(e, "Pages"@, v) == (ExtendedView { pages: parsed_u32(v), ..e }),
        extended_with(e, "Words"@, v) == (ExtendedView { words: parsed_u32(v), ..e }),
        extended_with(e, "Characters"@, v) == (ExtendedView { characters: parsed_u32(v), ..e }),
        extended_with(e, "CharactersWithSpaces"@, v) == (ExtendedView { characters_with_spaces: parsed_u32(v), ..e }),
        extended_with(e, "Lines"@, v) == (ExtendedView { lines: parsed_u32(v), ..e }),
        extended_with(e, "Paragraphs"@, v) == (ExtendedView { paragraphs: parsed_u32(v), ..e }),
        extended_with(e, "DocSecurity"@, v) == (ExtendedView { doc_security: parsed_u32(v), ..e }),
        extended_with(e, "ScaleCrop"@, v) == (ExtendedView { scale_crop: parsed_bool(v), ..e }),
        extended_with(e, "LinksUpToDate"@, v) == (ExtendedView { links_up_to_date: parsed_bool(v), ..e }),
        extended_with(e, "SharedDoc"@, v) == (ExtendedView { shared_doc: parsed_bool(v), ..e }),
        extended_with(e, "HyperlinksChanged"@, v) == (ExtendedView { hyperlinks_changed: parsed_bool(v), ..e }),
        extended_with(e, "HeadingPairs"@, v) == e,
        extended_with(e, "TitlesOfParts"@, v) == e,
{
    reveal_strlit("Application");
    reveal_strlit("AppVersion");
    reveal_strlit("Template");
    reveal_strlit("Company");
    reveal_strlit("TotalTime");
    reveal_strlit("Pages");
    reveal_strlit("Words");
    reveal_strlit("Characters");
    reveal_strlit("CharactersWithSpaces");
    reveal_strlit("Lines");
    reveal_strlit("Paragraphs");
    reveal_strlit("DocSecurity");
    reveal_strlit("ScaleCrop");
    reveal_strlit("LinksUpToDate");
    reveal_strlit("SharedDoc");
    reveal_strlit("HyperlinksChanged");
    reveal_strlit("DigSig");
    reveal_strlit("HeadingPairs");
    reveal_strlit("TitlesOfParts");
    assert("Application"@[0] == 'A');
    assert("AppVersion"@[0] == 'A');
    assert("Template"@[0] == 'T');
    assert("Company"@[0] == 'C');
    assert("TotalTime"@[0] == 'T');
    assert("Pages"@[0] == 'P');
    assert("Words"@[0] == 'W');
    assert("Characters"@[0] == 'C');
    assert("CharactersWithSpaces"@[0] == 'C');
    assert("Lines"@[0] == 'L');
    assert("Paragraphs"@[0] == 'P');
    assert("DocSecurity"@[0] == 'D');
    assert("ScaleCrop"@[0] == 'S');
    assert("LinksUpToDate"@[0] == 'L');
    assert("SharedDoc"@[0] == 'S');
    assert("HyperlinksChanged"@[0] == 'H');
    assert("DigSig"@[0] == 'D');
    assert("HeadingPairs"@[0] == 'H');
    assert("TitlesOfParts"@[0] == 'T');
    assert("ScaleCrop"@[1] == 'c');
    assert("SharedDoc"@[1] == 'h');
    assert("Application"@.len() == 11);
    assert("AppVersion"@.len() == 10);
    assert("Template"@.len() == 8);
    assert("Company"@.len() == 7);
    assert("TotalTime"@.len() == 9);
    assert("Pages"@.len() == 5);
    assert("Words"@.len() == 5);
    assert("Characters"@.len() == 10);
    assert("CharactersWithSpaces"@.len() == 20);
    assert("Lines"@.len() == 5);
    assert("Paragraphs"@.len() == 10);
    assert("DocSecurity"@.len() == 11);
    assert("ScaleCrop"@.len() == 9);
    assert("LinksUpToDate"@.len() == 13);
    assert("SharedDoc"@.len() == 9);
    assert("HyperlinksChanged"@.len() == 17);
    assert("DigSig"@.len() == 6);
    assert("HeadingPairs"@.len() == 12);
    assert("TitlesOfParts"@.len() == 13);
    assert("Application"@[3] == 'l');
    assert("AppVersion"@[3] == 'V');
    assert("DigSig"@[1] == 'i');
    assert("DocSecurity"@[1] == 'o');
    assert("Company"@[1] == 'o');
    assert("Characters"@[1] == 'h');
    assert("Template"@[1] == 'e');
    assert("TotalTime"@[1] == 'o');
    assert("TitlesOfParts"@[1] == 'i');
    assert("Lines"@[3] == 'e');
    assert("LinksUpToDate"@[3] == 'k');
    assert("Pages"@[2] == 'g');
    assert("Paragraphs"@[2] == 'r');
    assert("HyperlinksChanged"@[1] == 'y');
    assert("HeadingPairs"@[1] == 'e');
}

proof fn lemma_extended_with_all()
    ensures
        forall|e: ExtendedView, v: Seq<char>|
            #![trigger extended_with(e, "Application"@, v)]
            #![trigger extended_with(e, "AppVersion"@, v)]
            #![trigger extended_with(e, "Template"@, v)]
            #![trigger extended_with(e, "Company"@, v)]
            #![trigger extended_with(e, "TotalTime"@, v)]
            #![trigger extended_with(e, "Pages"@, v)]
            #![trigger extended_with(e, "Words"@, v)]
            #![trigger extended_with(e, "Characters"@, v)]
            #![trigger extended_with(e, "CharactersWithSpaces"@, v)]
            #![trigger extended_with(e, "Lines"@, v)]
            #![trigger extended_with(e, "Paragraphs"@, v)]
            #![trigger extended_with(e, "DocSecurity"@, v)]
            #![trigger extended_with(e, "ScaleCrop"@, v)]
            #![trigger extended_with(e, "LinksUpToDate"@, v)]
            #![trigger extended_with(e, "SharedDoc"@, v)]
            #![trigger extended_with(e, "HyperlinksChanged"@, v)]
            #![trigger extended_with(e, "DigSig"@, v)]
            #![trigger extended_with(e, "HeadingPairs"@, v)]
            #![trigger extended_with(e, "TitlesOfParts"@, v)]
            {
                &&& extended_with(e, "Application"@, v) == (ExtendedView { application: Some(v), ..e })
                &&& extended_with(e, "AppVersion"@, v) == (ExtendedView { app_version: Some(v), ..e })
                &&& extended_with(e, "Template"@, v) == (ExtendedView { template: Some(v), ..e })
                &&& extended_with(e, "Company"@, v) == (ExtendedView { company: Some(v), ..e })
                &&& extended_with(e, "DigSig"@, v) == (ExtendedView { dig_sig: Some(v), ..e })
                &&& extended_with(e, "TotalTime"@, v) == (ExtendedView { total_time: parsed_u32(v), ..e })
                &&& extended_with(e, "Pages"@, v) == (ExtendedView { pages: parsed_u32(v), ..e })
                &&& extended_with(e, "Words"@, v) == (ExtendedView { words: parsed_u32(v), ..e })
                &&& extended_with(e, "Characters"@, v) == (ExtendedView { characters: parsed_u32(v), ..e })
                &&& extended_with(e, "CharactersWithSpaces"@, v) == (ExtendedView { characters_with_spaces: parsed_u32(v), ..e })
                &&& extended_with(e, "Lines"@, v) == (ExtendedView { lines: parsed_u32(v), ..e })
                &&& extended_with(e, "Paragraphs"@, v) == (ExtendedView { paragraphs: parsed_u32(v), ..e })
                &&& extended_with(e, "DocSecurity"@, v) == (ExtendedView { doc_security: parsed_u32(v), ..e })
                &&& extended_with(e, "ScaleCrop"@, v) == (ExtendedView { scale_crop: parsed_bool(v), ..e })
                &&& extended_with(e, "LinksUpToDate"@, v) == (ExtendedView { links_up_to_date: parsed_bool(v), ..e })
                &&& extended_with(e, "SharedDoc"@, v) == (ExtendedView { shared_doc: parsed_bool(v), ..e })
                &&& extended_with(e, "HyperlinksChanged"@, v) == (ExtendedView { hyperlinks_changed: parsed_bool(v), ..e })
                &&& extended_with(e, "HeadingPairs"@, v) == e
                &&& extended_with(e, "TitlesOfParts"@, v) == e
            },
{
    assert forall|e: ExtendedView, v: Seq<char>| {
        &&& extended_with(e, "Application"@, v) == (ExtendedView { application: Some(v), ..e })
        &&& extended_with(e, "AppVersion"@, v) == (ExtendedView { app_version: Some(v), ..e })
        &&& extended_with(e, "Template"@, v) == (ExtendedView { template: Some(v), ..e })
        &&& extended_with(e, "Company"@, v) == (ExtendedView { company: Some(v), ..e })
        &&& extended_with(e, "DigSig"@, v) == (ExtendedView { dig_sig: Some(v), ..e })
        &&& extended_with(e, "TotalTime"@, v) == (ExtendedView { total_time: parsed_u32(v), ..e })
        &&& extended_with(e, "Pages"@, v) == (ExtendedView { pages: parsed_u32(v), ..e })
        &&& extended_with(e, "Words"@, v) == (ExtendedView { words: parsed_u32(v), ..e })
        &&& extended_with(e, "Characters"@, v) == (ExtendedView { characters: parsed_u32(v), ..e })
        &&& extended_with(e, "CharactersWithSpaces"@, v) == (ExtendedView { characters_with_spaces: parsed_u32(v), ..e })
        &&& extended_with(e, "Lines"@, v) == (ExtendedView { lines: parsed_u32(v), ..e })
        &&& extended_with(e, "Paragraphs"@, v) == (ExtendedView { paragraphs: parsed_u32(v), ..e })
        &&& extended_with(e, "DocSecurity"@, v) == (ExtendedView { doc_security: parsed_u32(v), ..e })
        &&& extended_with(e, "ScaleCrop"@, v) == (ExtendedView { scale_crop: parsed_bool(v), ..e })
        &&& extended_with(e, "LinksUpToDate"@, v) == (ExtendedView { links_up_to_date: parsed_bool(v), ..e })
        &&& extended_with(e, "SharedDoc"@, v) == (ExtendedView { shared_doc: parsed_bool(v), ..e })
        &&& extended_with(e, "HyperlinksChanged"@, v) == (ExtendedView { hyperlinks_changed: parsed_bool(v), ..e })
        &&& extended_with(e, "HeadingPairs"@, v) == e
        &&& extended_with(e, "TitlesOfParts"@, v) == e
    } by {
        lemma_extended_with_names(e, v);
    }
}

proof fn lemma_extended_applied_append(
    e: ExtendedView,
    a: Seq<(Seq<char>, Seq<char>)>,
    b: Seq<(Seq<char>, Seq<char>)>,
)
    ensures
        extended_applied(e, a + b) == extended_applied(extended_applied(e, a), b),
    decreases b.len(),
{
    if b.len() == 0 {
        assert(a + b =~= a);
    } else {
        lemma_extended_applied_append(e, a, b.drop_last());
        assert((a + b).drop_last() =~= a + b.drop_last());
        assert((a + b).last() == b.last());
    }
}

proof fn lemma_extended_applied_one(e: ExtendedView, a: Seq<(Seq<char>, Seq<char>)>, x: (Seq<char>, Seq<char>))
    ensures
        extended_applied(e, a + seq![x]) == extended_with(extended_applied(e, a), x.0, x.1),
{
    assert((a + seq![x]).drop_last() =~= a);
    assert((a + seq![x]).last() == x);
}

proof fn lemma_extended_applied_none(e: ExtendedView, a: Seq<(Seq<char>, Seq<char>)>)
    ensures
        extended_applied(e, a + Seq::empty()) == extended_applied(e, a),
{
    assert(a + Seq::<(Seq<char>, Seq<char>)>::empty() =~= a);
}

/// The text elements of the texts of generated extended properties.
pub open spec fn text_elements(ext: ExtendedView) -> Seq<(Seq<char>, Seq<char>)> {
    Seq::empty()
        + named_value("Application"@, ext.application)
        + named_value("AppVersion"@, ext.app_version)
        + named_value("Template"@, ext.template)
        + named_value("Company"@, ext.company)
}

/// The text elements of the numbers of generated extended properties.
pub open spec fn number_elements(ext: ExtendedView) -> Seq<(Seq<char>, Seq<char>)> {
    Seq::empty()
        + number_value("TotalTime"@, ext.total_time)
        + number_value("Pages"@, ext.pages)
        + number_value("Words"@, ext.words)
        + number_value("Characters"@, ext.characters)
        + number_value("CharactersWithSpaces"@, ext.characters_with_spaces)
        + number_value("Lines"@, ext.lines)
        + number_value("Paragraphs"@, ext.paragraphs)
        + number_value("DocSecurity"@, ext.doc_security)
}

/// The text elements of the flags of generated extended properties.
pub open spec fn flag_elements(ext: ExtendedView) -> Seq<(Seq<char>, Seq<char>)> {
    Seq::empty()
        + flag_value("ScaleCrop"@, ext.scale_crop)
        + flag_value("LinksUpToDate"@, ext.links_up_to_date)
        + flag_value("SharedDoc"@, ext.shared_doc)
        + flag_value("HyperlinksChanged"@, ext.hyperlinks_changed)
}

/// The text elements of the vectors of generated extended properties.
pub open spec fn vector_elements(ext: ExtendedView) -> Seq<(Seq<char>, Seq<char>)> {
    vector_value("HeadingPairs"@, ext.heading_pairs.len() > 0, heading_pairs_text(ext.heading_pairs))
        + vector_value("TitlesOfParts"@, ext.titles_of_parts.len() > 0, titles_text(ext.titles_of_parts))
}

proof fn lemma_text_elements_applied(e: ExtendedView, ext: ExtendedView)
    requires
        readable_extended(ext),
    ensures
        extended_applied(e, text_elements(ext)) == (ExtendedView {
            application: match ext.application {
                Some(x) => Some(x),
                None => e.application,
            },
            app_version: match ext.app_version {
                Some(x) => Some(x),
                None => e.app_version,
            },
            template: match ext.template {
                Some(x) => Some(x),
                None => e.template,
            },
            company: match ext.company {
                Some(x) => Some(x),
                None => e.company,
            },
            ..e
        }),
{
    lemma_extended_with_all();
    let e0 = Seq::<(Seq<char>, Seq<char>)>::empty();
    let e1 = e0 + named_value("Application"@, ext.application);
    match ext.application {
        Some(v) => lemma_extended_applied_one(e, e0, ("Application"@, v)),
        None => lemma_extended_applied_none(e, e0),
    }
    assert(extended_applied(e, e1) == (ExtendedView { application: match ext.application { Some(x) => Some(x), None => e.application }, ..e }));
    let e2 = e1 + named_value("AppVersion"@, ext.app_version);
    match ext.app_version {
        Some(v) => lemma_extended_applied_one(e, e1, ("AppVersion"@, v)),
        None => lemma_extended_applied_none(e, e1),
    }
    assert(extended_applied(e, e2) == (ExtendedView { application: match ext.application { Some(x) => Some(x), None => e.application }, app_version: match ext.app_version { Some(x) => Some(x), None => e.app_version }, ..e }));
    let e3 = e2 + named_value("Template"@, ext.template);
    match ext.template {
        Some(v) => lemma_extended_applied_one(e, e2, ("Template"@, v)),
        None => lemma_extended_applied_none(e, e2),
    }
    assert(extended_applied(e, e3) == (ExtendedView { application: match ext.application { Some(x) => Some(x), None => e.application }, app_version: match ext.app_version { Some(x) => Some(x), None => e.app_version }, template: match ext.template { Some(x) => Some(x), None => e.template }, ..e }));
    let e4 = e3 + named_value("Company"@, ext.company);
    match ext.company {
        Some(v) => lemma_extended_applied_one(e, e3, ("Company"@, v)),
        None => lemma_extended_applied_none(e, e3),
    }
    assert(extended_applied(e, e4) == (ExtendedView { application: match ext.application { Some(x) => Some(x), None => e.application }, app_version: match ext.app_version { Some(x) => Some(x), None => e.app_version }, template: match ext.template { Some(x) => Some(x), None => e.template }, company: match ext.company { Some(x) => Some(x), None => e.company }, ..e }));
    assert(e4 == text_elements(ext));
}

proof fn lemma_number_elements_applied(e: ExtendedView, ext: ExtendedView)
    requires
        readable_extended(ext),
    ensures
        extended_applied(e, number_elements(ext)) == (ExtendedView {
            total_time: match ext.total_time {
                Some(x) => Some(x),
                None => e.total_time,
            },
            pages: match ext.pages {
                Some(x) => Some(x),
                None => e.pages,
            },
            words: match ext.words {
                Some(x) => Some(x),
                None => e.words,
            },
            characters: match ext.characters {
                Some(x) => Some(x),
                None => e.characters,
            },
            characters_with_spaces: match ext.characters_with_spaces {
                Some(x) => Some(x),
                None => e.characters_with_spaces,
            },
            lines: match ext.lines {
                Some(x) => Some(x),
                None => e.lines,
            },
            paragraphs: match ext.paragraphs {
                Some(x) => Some(x),
                None => e.paragraphs,
            },
            doc_security: match ext.doc_security {
                Some(x) => Some(x),
                None => e.doc_security,
            },
            ..e
        }),
{
    lemma_extended_with_all();
    let e0 = Seq::<(Seq<char>, Seq<char>)>::empty();
    let e1 = e0 + number_value("TotalTime"@, ext.total_time);
    match ext.total_time {
        Some(n) => {
            lemma_extended_applied_one(e, e0, ("TotalTime"@, decimal(n as nat)));
            law_decimal_round_trip(n);
        },
        None => lemma_extended_applied_none(e, e0),
    }
    assert(extended_applied(e, e1) == (ExtendedView { total_time: match ext.total_time { Some(x) => Some(x), None => e.total_time }, ..e }));
    let e2 = e1 + number_value("Pages"@, ext.pages);
    match ext.pages {
        Some(n) => {
            lemma_extended_applied_one(e, e1, ("Pages"@, decimal(n as nat)));
            law_decimal_round_trip(n);
        },
        None => lemma_extended_applied_none(e, e1),
    }
    assert(extended_applied(e, e2) == (ExtendedView { total_time: match ext.total_time { Some(x) => Some(x), None => e.total_time }, pages: match ext.pages { Some(x) => Some(x), None => e.pages }, ..e }));
    let e3 = e2 + number_value("Words"@, ext.words);
    match ext.words {
        Some(n) => {
            lemma_extended_applied_one(e, e2, ("Words"@, decimal(n as nat)));
            law_decimal_round_trip(n);
        },
        None => lemma_extended_applied_none(e, e2),
    }
    assert(extended_applied(e, e3) == (ExtendedView { total_time: match ext.total_time { Some(x) => Some(x), None => e.total_time }, pages: match ext.pages { Some(x) => Some(x), None => e.pages }, words: match ext.words { Some(x) => Some(x), None => e.words }, ..e }));
    let e4 = e3 + number_value("Characters"@, ext.characters);
    match ext.characters {
        Some(n) => {
            lemma_extended_applied_one(e, e3, ("Characters"@, decimal(n as nat)));
            law_decimal_round_trip(n);
        },
        None => lemma_extended_applied_none(e, e3),
    }
    assert(extended_applied(e, e4) == (ExtendedView { total_time: match ext.total_time { Some(x) => Some(x), None => e.total_time }, pages: match ext.pages { Some(x) => Some(x), None => e.pages }, words: match ext.words { Some(x) => Some(x), None => e.words }, characters: match ext.characters { Some(x) => Some(x), None => e.characters }, ..e }));
    let e5 = e4 + number_value("CharactersWithSpaces"@, ext.characters_with_spaces);
    match ext.characters_with_spaces {
        Some(n) => {
            lemma_extended_applied_one(e, e4, ("CharactersWithSpaces"@, decimal(n as nat)));
            law_decimal_round_trip(n);
        },
        None => lemma_extended_applied_none(e, e4),
    }
    assert(extended_applied(e, e5) == (ExtendedView { total_time: match ext.total_time { Some(x) => Some(x), None => e.total_time }, pages: match ext.pages { Some(x) => Some(x), None => e.pages }, words: match ext.words { Some(x) => Some(x), None => e.words }, characters: match ext.characters { Some(x) => Some(x), None => e.characters }, characters_with_spaces: match ext.characters_with_spaces { Some(x) => Some(x), None => e.characters_with_spaces }, ..e }));
    let e6 = e5 + number_value("Lines"@, ext.lines);
    match ext.lines {
        Some(n) => {
            lemma_extended_applied_one(e, e5, ("Lines"@, decimal(n as nat)));
            law_decimal_round_trip(n);
        },
        None => lemma_extended_applied_none(e, e5),
    }
    assert(extended_applied(e, e6) == (ExtendedView { total_time: match ext.total_time { Some(x) => Some(x), None => e.total_time }, pages: match ext.pages { Some(x) => Some(x), None => e.pages }, words: match ext.words { Some(x) => Some(x), None => e.words }, characters: match ext.characters { Some(x) => Some(x), None => e.characters }, characters_with_spaces: match ext.characters_with_spaces { Some(x) => Some(x), None => e.characters_with_spaces }, lines: match ext.lines { Some(x) => Some(x), None => e.lines }, ..e }));
    let e7 = e6 + number_value("Paragraphs"@, ext.paragraphs);
    match ext.paragraphs {
        Some(n) => {
            lemma_extended_applied_one(e, e6, ("Paragraphs"@, decimal(n as nat)));
            law_decimal_round_trip(n);
        },
        None => lemma_extended_applied_none(e, e6),
    }
    assert(extended_applied(e, e7) == (ExtendedView { total_time: match ext.total_time { Some(x) => Some(x), None => e.total_time }, pages: match ext.pages { Some(x) => Some(x), None => e.pages }, words: match ext.words { Some(x) => Some(x), None => e.words }, characters: match ext.characters { Some(x) => Some(x), None => e.characters }, characters_with_spaces: match ext.characters_with_spaces { Some(x) => Some(x), None => e.characters_with_spaces }, lines: match ext.lines { Some(x) => Some(x), None => e.lines }, paragraphs: match ext.paragraphs { Some(x) => Some(x), None => e.paragraphs }, ..e }));
    let e8 = e7 + number_value("DocSecurity"@, ext.doc_security);
    match ext.doc_security {
        Some(n) => {
            lemma_extended_applied_one(e, e7, ("DocSecurity"@, decimal(n as nat)));
            law_decimal_round_trip(n);
        },
        None => lemma_extended_applied_none(e, e7),
    }
    assert(extended_applied(e, e8) == (ExtendedView { total_time: match ext.total_time { Some(x) => Some(x), None => e.total_time }, pages: match ext.pages { Some(x) => Some(x), None => e.pages }, words: match ext.words { Some(x) => Some(x), None => e.words }, characters: match ext.characters { Some(x) => Some(x), None => e.characters }, characters_with_spaces: match ext.characters_with_spaces { Some(x) => Some(x), None => e.characters_with_spaces }, lines: match ext.lines { Some(x) => Some(x), None => e.lines }, paragraphs: match ext.paragraphs { Some(x) => Some(x), None => e.paragraphs }, doc_security: match ext.doc_security { Some(x) => Some(x), None => e.doc_security }, ..e }));
    assert(e8 == number_elements(ext));
}

proof fn lemma_flag_elements_applied(e: ExtendedView, ext: ExtendedView)
    requires
        readable_extended(ext),
    ensures
        extended_applied(e, flag_elements(ext)) == (ExtendedView {
            scale_crop: match ext.scale_crop {
                Some(x) => Some(x),
                None => e.scale_crop,
            },
            links_up_to_date: match ext.links_up_to_date {
                Some(x) => Some(x),
                None => e.links_up_to_date,
            },
            shared_doc: match ext.shared_doc {
                Some(x) => Some(x),
                None => e.shared_doc,
            },
            hyperlinks_changed: match ext.hyperlinks_changed {
                Some(x) => Some(x),
                None => e.hyperlinks_changed,
            },
            ..e
        }),
{
    lemma_extended_with_all();
    let e0 = Seq::<(Seq<char>, Seq<char>)>::empty();
    let e1 = e0 + flag_value("ScaleCrop"@, ext.scale_crop);
    match ext.scale_crop {
        Some(b) => {
            lemma_extended_applied_one(e, e0, ("ScaleCrop"@, bool_text(b)));
            law_flag_round_trip(b);
        },
        None => lemma_extended_applied_none(e, e0),
    }
    assert(extended_applied(e, e1) == (ExtendedView { scale_crop: match ext.scale_crop { Some(x) => Some(x), None => e.scale_crop }, ..e }));
    let e2 = e1 + flag_value("LinksUpToDate"@, ext.links_up_to_date);
    match ext.links_up_to_date {
        Some(b) => {
            lemma_extended_applied_one(e, e1, ("LinksUpToDate"@, bool_text(b)));
            law_flag_round_trip(b);
        },
        None => lemma_extended_applied_none(e, e1),
    }
    assert(extended_applied(e, e2) == (ExtendedView { scale_crop: match ext.scale_crop { Some(x) => Some(x), None => e.scale_crop }, links_up_to_date: match ext.links_up_to_date { Some(x) => Some(x), None => e.links_up_to_date }, ..e }));
    let e3 = e2 + flag_value("SharedDoc"@, ext.shared_doc);
    match ext.shared_doc {
        Some(b) => {
            lemma_extended_applied_one(e, e2, ("SharedDoc"@, bool_text(b)));
            law_flag_round_trip(b);
        },
        None => lemma_extended_applied_none(e, e2),
    }
    assert(extended_applied(e, e3) == (ExtendedView { scale_crop: match ext.scale_crop { Some(x) => Some(x), None => e.scale_crop }, links_up_to_date: match ext.links_up_to_date { Some(x) => Some(x), None => e.links_up_to_date }, shared_doc: match ext.shared_doc { Some(x) => Some(x), None => e.shared_doc }, ..e }));
    let e4 = e3 + flag_value("HyperlinksChanged"@, ext.hyperlinks_changed);
    match ext.hyperlinks_changed {
        Some(b) => {
            lemma_extended_applied_one(e, e3, ("HyperlinksChanged"@, bool_text(b)));
            law_flag_round_trip(b);
        },
        None => lemma_extended_applied_none(e, e3),
    }
    assert(extended_applied(e, e4) == (ExtendedView { scale_crop: match ext.scale_crop { Some(x) => Some(x), None => e.scale_crop }, links_up_to_date: match ext.links_up_to_date { Some(x) => Some(x), None => e.links_up_to_date }, shared_doc: match ext.shared_doc { Some(x) => Some(x), None => e.shared_doc }, hyperlinks_changed: match ext.hyperlinks_changed { Some(x) => Some(x), None => e.hyperlinks_changed }, ..e }));
    assert(e4 == flag_elements(ext));
}

proof fn lemma_vector_elements_applied(e: ExtendedView, ext: ExtendedView)
    ensures
        extended_applied(e, vector_elements(ext)) == e,
{
    lemma_extended_with_all();
    let hp = vector_value("HeadingPairs"@, ext.heading_pairs.len() > 0, heading_pairs_text(ext.heading_pairs));
    let tp = vector_value("TitlesOfParts"@, ext.titles_of_parts.len() > 0, titles_text(ext.titles_of_parts));
    let e0 = Seq::<(Seq<char>, Seq<char>)>::empty();
    assert(e0 + hp =~= hp);
    if ext.heading_pairs.len() > 0 {
        lemma_extended_applied_one(e, e0, ("HeadingPairs"@, heading_pairs_text(ext.heading_pairs)));
    } else {
        lemma_extended_applied_none(e, e0);
    }
    if ext.titles_of_parts.len() > 0 {
        lemma_extended_applied_one(e, hp, ("TitlesOfParts"@, titles_text(ext.titles_of_parts)));
    } else {
        lemma_extended_applied_none(e, hp);
    }
}

/// Applying the elements of generated extended properties to empty ones
/// sets every text, number and flag as it was, where set texts are not
/// empty.
proof fn lemma_extended_elements_applied(ext: ExtendedView)
    requires
        readable_extended(ext),
    ensures
        extended_applied(empty_extended(), extended_elements(ext)) == (ExtendedView {
            heading_pairs: Seq::empty(),
            titles_of_parts: Seq::empty(),
            ..ext
        }),
{
    let c0 = empty_extended();
    let t = text_elements(ext);
    let n = number_elements(ext);
    let f = flag_elements(ext);
    let v = vector_elements(ext);
    let d = named_value("DigSig"@, ext.dig_sig);
    lemma_extended_applied_append(c0, t + n + f + v, d);
    lemma_extended_applied_append(c0, t + n + f, v);
    lemma_extended_applied_append(c0, t + n, f);
    lemma_extended_applied_append(c0, t, n);
    lemma_text_elements_applied(c0, ext);
    let c1 = extended_applied(c0, t);
    lemma_number_elements_applied(c1, ext);
    let c2 = extended_applied(c1, n);
    lemma_flag_elements_applied(c2, ext);
    let c3 = extended_applied(c2, f);
    lemma_vector_elements_applied(c3, ext);
    match ext.dig_sig {
        Some(x) => {
            lemma_extended_applied_one(c3, Seq::empty(), ("DigSig"@, x));
            lemma_extended_with_names(c3, x);
        },
        None => lemma_extended_applied_none(c3, Seq::empty()),
    }
    assert(Seq::<(Seq<char>, Seq<char>)>::empty() + d =~= d);
}

/// Generated extended properties read back as the properties they were
/// made from: the text elements collected from the generated events, as a
/// reader splits their text at references, applied to empty extended
/// properties, with the heading pairs and titles read from the same events
/// by a reader that also trims text, give the same properties, where set
/// texts are not empty, heading pair names and titles are plain, not empty
/// and without white space at either end, and resolving the references that
/// escaping writes gives back their characters.
pub proof fn law_extended_properties_read_back(ext: ExtendedView)
    requires
        readable_extended(ext),
        references_resolve(),
    ensures
        ({
            let events = extended_events(ext);
            let read = trimmed_reader_events(events);
            match (events_elements(reader_events(events)), vectors_fold(read, read.len() as int)) {
                (Some(elements), Some(vectors)) => {
                    let applied = extended_applied(empty_extended(), elements);
                    (ExtendedView {
                        heading_pairs: set_or(vectors.heading_pairs, applied.heading_pairs),
                        titles_of_parts: set_or(vectors.titles, applied.titles_of_parts),
                        ..applied
                    }) == ext
                },
                _ => false,
            }
        }),
{
    lemma_extended_events_elements(ext);
    lemma_extended_events_vectors(ext);
    lemma_extended_elements_applied(ext);
    assert(ext.heading_pairs.len() == 0 ==> ext.heading_pairs =~= Seq::<(Seq<char>, u32)>::empty());
    assert(ext.titles_of_parts.len() == 0 ==> ext.titles_of_parts =~= Seq::<Seq<char>>::empty());
}

} // verus!
