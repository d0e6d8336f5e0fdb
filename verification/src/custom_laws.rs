//! What generated custom properties read back as.
use crate::attributes::{normalized_lookup, tag_attributes};
use crate::custom_props::{
    custom_events, custom_fold, custom_root_attributes, custom_step, inserted_all, lemma_inserted_all_lists,
    property_attributes, property_events, property_list_events, CustomState,
};
use crate::text_map::{lemma_sorted_entries_list, sorted_entries};
use crate::xml::{escaped_text, EventView};
use crate::xml_build::standalone_declaration;
use crate::xml_text::{is_markup_char, lemma_local_name_at, lemma_local_name_plain, local_name};
use crate::reader_pieces::{
    char_index, lemma_char_index, lemma_escaped_cons, lemma_escaped_no_cr, lemma_markup_char_reference,
    lemma_pieces_cons, lemma_reader_events_append, lemma_reader_events_one, lemma_run_decoded, reader_events,
    reference_name, references_resolve, text_pieces,
};
use vstd::prelude::*;

verus! {

/// Reading custom properties from a given state.
pub open spec fn custom_run(state: Option<CustomState>, events: Seq<EventView>) -> Option<CustomState>
    decreases events.len(),
{
    if events.len() == 0 {
        state
    } else {
        custom_step(custom_run(state, events.drop_last()), events.last())
    }
}

/// The state between two properties, with the properties read so far.
pub open spec fn between_properties(entries: Seq<(Seq<char>, Seq<char>)>) -> CustomState {
    CustomState { name: None, value: Seq::empty(), depth: 0, entries }
}

proof fn lemma_custom_fold_run(events: Seq<EventView>, n: int)
    requires
        0 <= n <= events.len(),
    ensures
        custom_fold(events, n) == custom_run(Some(between_properties(Seq::empty())), events.take(n)),
    decreases n,
{
    if n > 0 {
        lemma_custom_fold_run(events, n - 1);
        assert(events.take(n).drop_last() =~= events.take(n - 1));
        assert(events.take(n).last() == events[n - 1]);
    } else {
        assert(events.take(0) =~= Seq::<EventView>::empty());
    }
}

proof fn lemma_custom_run_append(state: Option<CustomState>, a: Seq<EventView>, b: Seq<EventView>)
    ensures
        custom_run(state, a + b) == custom_run(custom_run(state, a), b),
    decreases b.len(),
{
    if b.len() == 0 {
        assert(a + b =~= a);
    } else {
        lemma_custom_run_append(state, a, b.drop_last());
        assert((a + b).drop_last() =~= a + b.drop_last());
        assert((a + b).last() == b.last());
    }
}

proof fn lemma_custom_run_one(state: Option<CustomState>, e: EventView)
    ensures
        custom_run(state, seq![e]) == custom_step(state, e),
{
    assert(seq![e].drop_last() =~= Seq::<EventView>::empty());
    assert(custom_run(state, seq![e].drop_last()) == state);
    assert(seq![e].last() == e);
}

proof fn lemma_custom_local_names()
    ensures
        local_name("property"@) == "property"@,
        local_name("Properties"@) == "Properties"@,
        local_name("vt:lpwstr"@) == "lpwstr"@,
        "Properties"@ != "property"@,
        "lpwstr"@ != "property"@,
{
    reveal_strlit("property");
    reveal_strlit("Properties");
    reveal_strlit("vt:lpwstr");
    reveal_strlit("lpwstr");
    lemma_local_name_plain("property"@);
    lemma_local_name_plain("Properties"@);
    lemma_local_name_at("vt:lpwstr"@, 2);
    assert("vt:lpwstr"@.skip(3) =~= "lpwstr"@);
}

/// Whether the XML reader's split of a generated property tag's attributes
/// gives back the property's name as its normalized `name` attribute.
pub open spec fn property_name_reads_back(pid: nat, name: Seq<char>) -> bool {
    normalized_lookup(tag_attributes("property"@, property_attributes(pid, name)), "name"@) == Some(Some(name))
}

/// Reading the pieces of escaped text, as the reader splits it at its
/// references, inside a property's value adds the text to the value.
proof fn lemma_pieces_custom_run(st: CustomState, v: Seq<char>)
    requires
        st.depth > 0,
        references_resolve(),
    ensures
        custom_run(Some(st), text_pieces(escaped_text(v))) == Some(CustomState { value: st.value + v, ..st }),
    decreases v.len(),
{
    if v.len() == 0 {
        assert(escaped_text(v) =~= Seq::<char>::empty());
        assert(text_pieces(escaped_text(v)) =~= Seq::<EventView>::empty());
        assert(st.value + v =~= st.value);
    } else {
        let c = v[0];
        let r = v.drop_first();
        assert(v =~= seq![c] + r);
        lemma_escaped_cons(c, r);
        lemma_escaped_no_cr(r);
        let rest = escaped_text(r);
        lemma_pieces_cons(c, rest);
        let st1 = CustomState { value: st.value + seq![c], ..st };
        lemma_pieces_custom_run(st1, r);
        assert(st.value + seq![c] + r =~= st.value + v);
        if is_markup_char(c) {
            let g = EventView::GeneralRef(reference_name(c));
            lemma_markup_char_reference(c);
            lemma_custom_run_append(Some(st), seq![g], text_pieces(rest));
            lemma_custom_run_one(Some(st), g);
        } else if rest.len() == 0 || rest[0] == '&' {
            let t = EventView::Text(seq![c]);
            lemma_run_decoded(seq![c]);
            lemma_custom_run_append(Some(st), seq![t], text_pieces(rest));
            lemma_custom_run_one(Some(st), t);
        } else {
            let i = char_index(rest, '&') as int;
            lemma_char_index(rest, '&');
            let run = rest.take(i);
            let tail = text_pieces(rest.skip(i));
            lemma_run_decoded(run);
            lemma_run_decoded(seq![c] + run);
            let t1 = EventView::Text(run);
            let t2 = EventView::Text(seq![c] + run);
            lemma_custom_run_append(Some(st1), seq![t1], tail);
            lemma_custom_run_one(Some(st1), t1);
            lemma_custom_run_append(Some(st), seq![t2], tail);
            lemma_custom_run_one(Some(st), t2);
            assert(st.value + seq![c] + run =~= st.value + (seq![c] + run));
        }
    }
}

/// One generated property is read as its name and value.
proof fn lemma_property_run(entries: Seq<(Seq<char>, Seq<char>)>, pid: nat, name: Seq<char>, value: Seq<char>)
    requires
        references_resolve(),
        property_name_reads_back(pid, name),
    ensures
        custom_run(Some(between_properties(entries)), reader_events(property_events(pid, name, value))) == Some(
            between_properties(entries.push((name, value))),
        ),
{
    lemma_custom_local_names();
    let s0 = Some(between_properties(entries));
    let a = EventView::Start("property"@, property_attributes(pid, name));
    let b = EventView::Start("vt:lpwstr"@, Seq::empty());
    let c = EventView::Text(escaped_text(value));
    let d = EventView::End("vt:lpwstr"@);
    let e = EventView::End("property"@);
    assert(property_events(pid, name, value) =~= seq![a] + seq![b] + seq![c] + seq![d] + seq![e]);
    lemma_reader_events_append(seq![a] + seq![b] + seq![c] + seq![d], seq![e]);
    lemma_reader_events_append(seq![a] + seq![b] + seq![c], seq![d]);
    lemma_reader_events_append(seq![a] + seq![b], seq![c]);
    lemma_reader_events_append(seq![a], seq![b]);
    lemma_reader_events_one(a);
    lemma_reader_events_one(b);
    lemma_reader_events_one(c);
    lemma_reader_events_one(d);
    lemma_reader_events_one(e);
    let pieces = text_pieces(escaped_text(value));
    lemma_custom_run_append(s0, seq![a] + seq![b] + pieces + seq![d], seq![e]);
    lemma_custom_run_append(s0, seq![a] + seq![b] + pieces, seq![d]);
    lemma_custom_run_append(s0, seq![a] + seq![b], pieces);
    lemma_custom_run_append(s0, seq![a], seq![b]);
    lemma_custom_run_one(s0, a);
    let s1 = custom_step(s0, a);
    assert(s1 == Some(CustomState { name: Some(name), value: Seq::empty(), depth: 0, entries }));
    lemma_custom_run_one(s1, b);
    let s2 = custom_step(s1, b).unwrap();
    lemma_pieces_custom_run(s2, value);
    let s3 = Some(CustomState { value: s2.value + value, ..s2 });
    assert(Seq::<char>::empty() + value =~= value);
    lemma_custom_run_one(s3, d);
    let s4 = custom_step(s3, d);
    lemma_custom_run_one(s4, e);
}

/// Custom properties that read back from their generated events as they
/// are: there are finitely many, and the reader gives back each name from
/// its property tag.
pub open spec fn readable_custom(custom: Map<Seq<char>, Seq<char>>) -> bool {
    &&& custom.dom().finite()
    &&& forall|pid: nat, name: Seq<char>| custom.dom().contains(name) ==> #[trigger] property_name_reads_back(pid, name)
}

proof fn lemma_property_list_run(entries: Seq<(Seq<char>, Seq<char>)>, custom: Map<Seq<char>, Seq<char>>)
    requires
        readable_custom(custom),
        references_resolve(),
        forall|i: int| 0 <= i < entries.len() ==> #[trigger] custom.dom().contains(entries[i].0) && custom[entries[i].0]
            == entries[i].1,
    ensures
        custom_run(Some(between_properties(Seq::empty())), reader_events(property_list_events(entries))) == Some(
            between_properties(entries),
        ),
    decreases entries.len(),
{
    if entries.len() == 0 {
        assert(entries =~= Seq::<(Seq<char>, Seq<char>)>::empty());
        assert(reader_events(property_list_events(entries)) =~= Seq::<EventView>::empty());
    } else {
        let front = entries.drop_last();
        let last = entries.last();
        assert forall|i: int| 0 <= i < front.len() implies #[trigger] custom.dom().contains(front[i].0)
            && custom[front[i].0] == front[i].1 by {
            assert(front[i] == entries[i]);
        }
        lemma_property_list_run(front, custom);
        assert(custom.dom().contains(entries[entries.len() - 1].0));
        let pid = (entries.len() + 1) as nat;
        assert(property_name_reads_back(pid, last.0));
        lemma_reader_events_append(property_list_events(front), property_events(pid, last.0, last.1));
        lemma_custom_run_append(
            Some(between_properties(Seq::empty())),
            reader_events(property_list_events(front)),
            reader_events(property_events(pid, last.0, last.1)),
        );
        lemma_property_run(front, pid, last.0, last.1);
        assert(front.push(last) =~= entries);
    }
}

/// Generated custom properties read back as the properties they were made
/// from: reading the generated events, as the reader splits their text at
/// references, lists the properties, and inserting them into an empty map
/// gives the same map, where the reader gives back each name from its
/// property tag and resolving the references that escaping writes gives
/// back their characters.
pub proof fn law_custom_properties_read_back(custom: Map<Seq<char>, Seq<char>>)
    requires
        readable_custom(custom),
        references_resolve(),
    ensures
        custom_fold(reader_events(custom_events(custom)), reader_events(custom_events(custom)).len() as int) matches Some(
            st,
        ) && inserted_all(Map::empty(), st.entries) == custom,
{
    lemma_custom_local_names();
    lemma_sorted_entries_list(custom);
    let entries = sorted_entries(custom);
    let events = custom_events(custom);
    let start = Some(between_properties(Seq::empty()));
    let d = standalone_declaration();
    let r = EventView::Start("Properties"@, custom_root_attributes());
    let list = property_list_events(entries);
    let end = EventView::End("Properties"@);
    assert(seq![d, r] =~= seq![d] + seq![r]);
    assert(events =~= seq![d] + seq![r] + list + seq![end]);
    lemma_reader_events_append(seq![d] + seq![r] + list, seq![end]);
    lemma_reader_events_append(seq![d] + seq![r], list);
    lemma_reader_events_append(seq![d], seq![r]);
    lemma_reader_events_one(d);
    lemma_reader_events_one(r);
    lemma_reader_events_one(end);
    let read_list = reader_events(list);
    let read = reader_events(events);
    assert(read =~= seq![d] + seq![r] + read_list + seq![end]);
    lemma_custom_run_append(start, seq![d] + seq![r] + read_list, seq![end]);
    lemma_custom_run_append(start, seq![d] + seq![r], read_list);
    lemma_custom_run_append(start, seq![d], seq![r]);
    lemma_custom_run_one(start, d);
    lemma_custom_run_one(start, r);
    lemma_property_list_run(entries, custom);
    lemma_custom_run_one(Some(between_properties(entries)), end);
    lemma_custom_fold_run(read, read.len() as int);
    assert(read.take(read.len() as int) =~= read);
    lemma_inserted_all_lists(entries, custom);
}

} // verus!
