//! How the XML reader splits character data at references: the text
//! between references comes as text events, each reference `&name;` as a
//! general reference event.
use crate::xml::{escaped_char, escaped_text, EventView};
use crate::xml_build::text_element;
use crate::xml_reader::is_xml_space;
use crate::xml_text::{
    decoded_reference, decoded_text, is_markup_char, lemma_plain_escaped, normalized_eols, plain_text, unescaped_text,
};
use vstd::prelude::*;

verus! {

/// The index of the first `c` in `s`, or the length of `s` when there is
/// none.
pub open spec fn char_index(s: Seq<char>, c: char) -> nat
    decreases s.len(),
{
    if s.len() == 0 {
        0
    } else if s[0] == c {
        0
    } else {
        1 + char_index(s.drop_first(), c)
    }
}

pub proof fn lemma_char_index(s: Seq<char>, c: char)
    ensures
        char_index(s, c) <= s.len(),
        forall|i: int| 0 <= i < char_index(s, c) ==> s[i] != c,
        char_index(s, c) < s.len() ==> s[char_index(s, c) as int] == c,
    decreases s.len(),
{
    if s.len() > 0 && s[0] != c {
        lemma_char_index(s.drop_first(), c);
        assert forall|i: int| 0 <= i < char_index(s, c) implies s[i] != c by {
            if i > 0 {
                assert(s[i] == s.drop_first()[i - 1]);
            }
        }
    }
}

/// Where `c` first occurs in `a + b`.
pub proof fn lemma_char_index_append(a: Seq<char>, b: Seq<char>, c: char)
    ensures
        char_index(a + b, c) == if char_index(a, c) < a.len() {
            char_index(a, c)
        } else {
            a.len() + char_index(b, c)
        },
    decreases a.len(),
{
    lemma_char_index(a, c);
    if a.len() == 0 {
        assert(a + b =~= b);
    } else if a[0] != c {
        lemma_char_index_append(a.drop_first(), b, c);
        assert((a + b).drop_first() =~= a.drop_first() + b);
    }
}

/// The events that the reader gives for the content of a text event: each
/// run of characters up to the next `&` as a text event, and each reference
/// `&name;` as a general reference event with its name. An empty text gives
/// no event.
pub open spec fn text_pieces(raw: Seq<char>) -> Seq<EventView>
    decreases raw.len(),
{
    if raw.len() == 0 {
        Seq::empty()
    } else if raw[0] == '&' {
        let j = char_index(raw, ';');
        if j < raw.len() {
            seq![EventView::GeneralRef(raw.subrange(1, j as int))] + text_pieces(raw.skip(j as int + 1))
        } else {
            seq![EventView::Text(raw)]
        }
    } else {
        let i = char_index(raw, '&');
        proof {
            lemma_char_index(raw, '&');
        }
        seq![EventView::Text(raw.take(i as int))] + text_pieces(raw.skip(i as int))
    }
}

/// The events that the reader gives for one written event: a text event
/// split at its references, any other event as it is.
pub open spec fn reader_event(event: EventView) -> Seq<EventView> {
    match event {
        EventView::Text(raw) => text_pieces(raw),
        _ => seq![event],
    }
}

/// The events that the reader gives for written events, each text event
/// split at its references.
pub open spec fn reader_events(events: Seq<EventView>) -> Seq<EventView>
    decreases events.len(),
{
    if events.len() == 0 {
        Seq::empty()
    } else {
        reader_events(events.drop_last()) + reader_event(events.last())
    }
}

pub proof fn lemma_reader_events_append(a: Seq<EventView>, b: Seq<EventView>)
    ensures
        reader_events(a + b) == reader_events(a) + reader_events(b),
    decreases b.len(),
{
    if b.len() == 0 {
        assert(a + b =~= a);
        assert(reader_events(a) + reader_events(b) =~= reader_events(a));
    } else {
        lemma_reader_events_append(a, b.drop_last());
        assert((a + b).drop_last() =~= a + b.drop_last());
        assert((a + b).last() == b.last());
        assert(reader_events(a + b) =~= reader_events(a) + reader_events(b));
    }
}

pub proof fn lemma_reader_events_one(e: EventView)
    ensures
        reader_events(seq![e]) == reader_event(e),
{
    let s = seq![e];
    assert(s.drop_last() =~= Seq::<EventView>::empty());
    assert(reader_events(s.drop_last()) =~= Seq::<EventView>::empty());
    assert(s.last() == e);
    assert(Seq::<EventView>::empty() + reader_event(e) =~= reader_event(e));
}

/// The name of the reference that escaping writes for a character.
pub open spec fn reference_name(c: char) -> Seq<char> {
    if c == '<' {
        "lt"@
    } else if c == '>' {
        "gt"@
    } else if c == '&' {
        "amp"@
    } else if c == '\'' {
        "apos"@
    } else if c == '"' {
        "quot"@
    } else {
        "#13"@
    }
}

/// Whether resolving references (`quick_xml::escape::unescape`) gives each
/// character back from the reference that escaping writes for it: the five
/// predefined entities, and the character reference `&#13;` for a carriage
/// return.
pub open spec fn references_resolve() -> bool {
    &&& unescaped_text("&lt;"@) == Some(seq!['<'])
    &&& unescaped_text("&gt;"@) == Some(seq!['>'])
    &&& unescaped_text("&amp;"@) == Some(seq!['&'])
    &&& unescaped_text("&apos;"@) == Some(seq!['\''])
    &&& unescaped_text("&quot;"@) == Some(seq!['"'])
    &&& unescaped_text("&#13;"@) == Some(seq!['\r'])
}

/// An escaped character is a reference to it.
pub proof fn lemma_markup_char_reference(c: char)
    requires
        is_markup_char(c),
    ensures
        escaped_char(c) == "&"@ + reference_name(c) + ";"@,
        char_index(reference_name(c), ';') == reference_name(c).len(),
        normalized_eols(reference_name(c)) == reference_name(c),
        references_resolve() ==> decoded_reference(reference_name(c)) == Some(seq![c]),
{
    reveal_strlit("&lt;");
    reveal_strlit("&gt;");
    reveal_strlit("&amp;");
    reveal_strlit("&apos;");
    reveal_strlit("&quot;");
    reveal_strlit("&#13;");
    reveal_strlit("lt");
    reveal_strlit("gt");
    reveal_strlit("amp");
    reveal_strlit("apos");
    reveal_strlit("quot");
    reveal_strlit("#13");
    reveal_strlit("&");
    reveal_strlit(";");
    let name = reference_name(c);
    assert(escaped_char(c) =~= "&"@ + name + ";"@);
    lemma_char_index(name, ';');
    lemma_no_cr_normalized(name);
    if char_index(name, ';') < name.len() {
        assert(name[char_index(name, ';') as int] == ';');
    }
}

/// Text without a carriage return needs no line-end normalization.
pub proof fn lemma_no_cr_normalized(s: Seq<char>)
    requires
        forall|i: int| 0 <= i < s.len() ==> s[i] != '\r',
    ensures
        normalized_eols(s) == s,
    decreases s.len(),
{
    if s.len() > 0 {
        assert(s[0] != '\r');
        assert forall|i: int| 0 <= i < s.drop_first().len() implies s.drop_first()[i] != '\r' by {
            assert(s.drop_first()[i] == s[i + 1]);
        }
        lemma_no_cr_normalized(s.drop_first());
        assert(seq![s[0]] + s.drop_first() =~= s);
    }
}

/// A run of characters without `&` or carriage returns decodes to itself.
pub proof fn lemma_run_decoded(t: Seq<char>)
    requires
        forall|i: int| 0 <= i < t.len() ==> t[i] != '\r' && t[i] != '&',
    ensures
        normalized_eols(t) == t,
        decoded_text(t) == Some(t),
{
    lemma_no_cr_normalized(t);
    if t.contains('&') {
        let i = choose|i: int| 0 <= i < t.len() && t[i] == '&';
        assert(t[i] != '&');
    }
}

/// Escaping text character by character from the front.
pub proof fn lemma_escaped_cons(c: char, r: Seq<char>)
    ensures
        escaped_text(seq![c] + r) == escaped_char(c) + escaped_text(r),
    decreases r.len(),
{
    let v = seq![c] + r;
    if r.len() == 0 {
        assert(v =~= seq![c]);
        assert(v.drop_last() =~= Seq::<char>::empty());
        assert(escaped_text(v.drop_last()) =~= Seq::<char>::empty());
        assert(escaped_text(r) =~= Seq::<char>::empty());
        assert(v.last() == c);
        assert(escaped_char(c) + Seq::<char>::empty() =~= escaped_char(c));
        assert(Seq::<char>::empty() + escaped_char(c) =~= escaped_char(c));
    } else {
        lemma_escaped_cons(c, r.drop_last());
        assert(v.drop_last() =~= seq![c] + r.drop_last());
        assert(v.last() == r.last());
        assert(escaped_char(c) + escaped_text(r.drop_last()) + escaped_char(r.last()) =~= escaped_char(c) + (
        escaped_text(r.drop_last()) + escaped_char(r.last())));
    }
}

/// Escaped text holds no carriage return.
pub proof fn lemma_escaped_no_cr(v: Seq<char>)
    ensures
        forall|i: int| 0 <= i < escaped_text(v).len() ==> escaped_text(v)[i] != '\r',
    decreases v.len(),
{
    reveal_strlit("&lt;");
    reveal_strlit("&gt;");
    reveal_strlit("&amp;");
    reveal_strlit("&apos;");
    reveal_strlit("&quot;");
    reveal_strlit("&#13;");
    if v.len() > 0 {
        lemma_escaped_no_cr(v.drop_last());
        let a = escaped_text(v.drop_last());
        let b = escaped_char(v.last());
        assert forall|i: int| 0 <= i < (a + b).len() implies (a + b)[i] != '\r' by {
            if i >= a.len() {
                assert((a + b)[i] == b[i - a.len()]);
            }
        }
    }
}

/// How the reader splits escaped text that starts with a given character:
/// a character that escaping replaces comes as a reference before the rest;
/// any other character joins the run of text that the rest starts with.
pub proof fn lemma_pieces_cons(c: char, rest: Seq<char>)
    requires
        forall|i: int| 0 <= i < rest.len() ==> rest[i] != '\r',
    ensures
        is_markup_char(c) ==> text_pieces(escaped_char(c) + rest) == seq![EventView::GeneralRef(reference_name(c))]
            + text_pieces(rest),
        !is_markup_char(c) && (rest.len() == 0 || rest[0] == '&') ==> text_pieces(escaped_char(c) + rest) == seq![
            EventView::Text(seq![c]),
        ] + text_pieces(rest),
        !is_markup_char(c) && rest.len() > 0 && rest[0] != '&' ==> ({
            let i = char_index(rest, '&') as int;
            &&& 0 < i <= rest.len()
            &&& text_pieces(rest) == seq![EventView::Text(rest.take(i))] + text_pieces(rest.skip(i))
            &&& text_pieces(escaped_char(c) + rest) == seq![EventView::Text(seq![c] + rest.take(i))] + text_pieces(
                rest.skip(i),
            )
        }),
{
    let raw = escaped_char(c) + rest;
    if is_markup_char(c) {
        lemma_markup_char_reference(c);
        let name = reference_name(c);
        let head = "&"@ + name + ";"@;
        reveal_strlit("&");
        reveal_strlit(";");
        lemma_char_index_append(head, rest, ';');
        lemma_char_index_append("&"@ + name, ";"@, ';');
        lemma_char_index_append("&"@, name, ';');
        assert(char_index("&"@, ';') == 1) by {
            assert("&"@.len() == 1);
            assert("&"@[0] == '&');
            assert(char_index("&"@.drop_first(), ';') == 0);
        }
        assert(char_index(";"@, ';') == 0);
        assert(raw[0] == '&');
        let j = char_index(raw, ';');
        assert(j == name.len() + 1);
        assert(raw.subrange(1, j as int) =~= name);
        assert(raw.skip(j as int + 1) =~= rest);
    } else {
        assert(escaped_char(c) == seq![c]);
        assert(raw[0] == c);
        lemma_char_index_append(seq![c], rest, '&');
        assert(char_index(seq![c], '&') == 1) by {
            assert(seq![c][0] == c);
            assert(char_index(seq![c].drop_first(), '&') == 0);
        }
        lemma_char_index(rest, '&');
        let i = char_index(rest, '&') as int;
        assert(char_index(raw, '&') == 1 + i);
        assert(raw.take(1 + i) =~= seq![c] + rest.take(i));
        assert(raw.skip(1 + i) =~= rest.skip(i));
        if rest.len() > 0 && rest[0] != '&' {
            assert(i > 0);
        } else {
            assert(i == 0);
            assert(rest.take(0) =~= Seq::<char>::empty());
            assert(seq![c] + rest.take(0) =~= seq![c]);
            assert(rest.skip(0) =~= rest);
        }
    }
}

/// Text with the XML white space at its start removed.
pub open spec fn xml_trimmed_start(s: Seq<char>) -> Seq<char>
    decreases s.len(),
{
    if s.len() > 0 && is_xml_space(s[0]) {
        xml_trimmed_start(s.drop_first())
    } else {
        s
    }
}

/// Text with the XML white space at its end removed.
pub open spec fn xml_trimmed_end(s: Seq<char>) -> Seq<char>
    decreases s.len(),
{
    if s.len() > 0 && is_xml_space(s.last()) {
        xml_trimmed_end(s.drop_last())
    } else {
        s
    }
}

/// Text with the XML white space at both ends removed.
pub open spec fn xml_trimmed(s: Seq<char>) -> Seq<char> {
    xml_trimmed_end(xml_trimmed_start(s))
}

/// What a reader that trims text gives for one piece: a text piece trimmed,
/// or nothing when only white space is left; any other piece as it is.
pub open spec fn trimmed_piece(piece: EventView) -> Seq<EventView> {
    match piece {
        EventView::Text(t) => if xml_trimmed(t).len() > 0 {
            seq![EventView::Text(xml_trimmed(t))]
        } else {
            Seq::empty()
        },
        _ => seq![piece],
    }
}

/// What a reader that trims text gives for a list of pieces.
pub open spec fn trimmed_pieces(pieces: Seq<EventView>) -> Seq<EventView>
    decreases pieces.len(),
{
    if pieces.len() == 0 {
        Seq::empty()
    } else {
        trimmed_pieces(pieces.drop_last()) + trimmed_piece(pieces.last())
    }
}

/// The events that a reader that trims text gives for one written event.
pub open spec fn trimmed_reader_event(event: EventView) -> Seq<EventView> {
    match event {
        EventView::Text(raw) => trimmed_pieces(text_pieces(raw)),
        _ => seq![event],
    }
}

/// The events that a reader that trims text gives for written events: each
/// text split at its references, each text piece trimmed, and the pieces
/// left empty dropped.
pub open spec fn trimmed_reader_events(events: Seq<EventView>) -> Seq<EventView>
    decreases events.len(),
{
    if events.len() == 0 {
        Seq::empty()
    } else {
        trimmed_reader_events(events.drop_last()) + trimmed_reader_event(events.last())
    }
}

pub proof fn lemma_trimmed_reader_events_append(a: Seq<EventView>, b: Seq<EventView>)
    ensures
        trimmed_reader_events(a + b) == trimmed_reader_events(a) + trimmed_reader_events(b),
    decreases b.len(),
{
    if b.len() == 0 {
        assert(a + b =~= a);
        assert(trimmed_reader_events(a) + trimmed_reader_events(b) =~= trimmed_reader_events(a));
    } else {
        lemma_trimmed_reader_events_append(a, b.drop_last());
        assert((a + b).drop_last() =~= a + b.drop_last());
        assert((a + b).last() == b.last());
        assert(trimmed_reader_events(a + b) =~= trimmed_reader_events(a) + trimmed_reader_events(b));
    }
}

pub proof fn lemma_trimmed_reader_events_one(e: EventView)
    ensures
        trimmed_reader_events(seq![e]) == trimmed_reader_event(e),
{
    let s = seq![e];
    assert(s.drop_last() =~= Seq::<EventView>::empty());
    assert(trimmed_reader_events(s.drop_last()) =~= Seq::<EventView>::empty());
    assert(s.last() == e);
    assert(Seq::<EventView>::empty() + trimmed_reader_event(e) =~= trimmed_reader_event(e));
}

/// Whether every event is a text or a reference.
pub open spec fn pieces_only(events: Seq<EventView>) -> bool {
    forall|i: int| 0 <= i < events.len() ==> (#[trigger] events[i] is Text || events[i] is GeneralRef)
}

pub proof fn lemma_text_pieces_only(raw: Seq<char>)
    ensures
        pieces_only(text_pieces(raw)),
    decreases raw.len(),
{
    if raw.len() > 0 {
        if raw[0] == '&' {
            let j = char_index(raw, ';');
            if j < raw.len() {
                lemma_text_pieces_only(raw.skip(j as int + 1));
                let rest = text_pieces(raw.skip(j as int + 1));
                let all = seq![EventView::GeneralRef(raw.subrange(1, j as int))] + rest;
                assert forall|i: int| 0 <= i < all.len() implies (#[trigger] all[i] is Text || all[i] is GeneralRef) by {
                    if i > 0 {
                        assert(all[i] == rest[i - 1]);
                    }
                }
            }
        } else {
            let i0 = char_index(raw, '&');
            lemma_char_index(raw, '&');
            lemma_text_pieces_only(raw.skip(i0 as int));
            let rest = text_pieces(raw.skip(i0 as int));
            let all = seq![EventView::Text(raw.take(i0 as int))] + rest;
            assert forall|i: int| 0 <= i < all.len() implies (#[trigger] all[i] is Text || all[i] is GeneralRef) by {
                if i > 0 {
                    assert(all[i] == rest[i - 1]);
                }
            }
        }
    }
}

pub proof fn lemma_trimmed_pieces_only(pieces: Seq<EventView>)
    requires
        pieces_only(pieces),
    ensures
        pieces_only(trimmed_pieces(pieces)),
    decreases pieces.len(),
{
    if pieces.len() > 0 {
        let front = pieces.drop_last();
        assert forall|i: int| 0 <= i < front.len() implies (#[trigger] front[i] is Text || front[i] is GeneralRef) by {
            assert(front[i] == pieces[i]);
        }
        lemma_trimmed_pieces_only(front);
        let a = trimmed_pieces(front);
        let b = trimmed_piece(pieces.last());
        assert(pieces.last() == pieces[pieces.len() - 1]);
        assert forall|i: int| 0 <= i < (a + b).len() implies (#[trigger] (a + b)[i] is Text || (a + b)[i] is GeneralRef) by {
            if i >= a.len() {
                assert((a + b)[i] == b[i - a.len()]);
            }
        }
    }
}

/// Text that the reader gives back as one text event, trimming or not: not
/// empty, without `&`, and without white space at either end.
pub open spec fn clean_text(raw: Seq<char>) -> bool {
    &&& raw.len() > 0
    &&& forall|i: int| 0 <= i < raw.len() ==> raw[i] != '&'
    &&& !is_xml_space(raw[0])
    &&& !is_xml_space(raw.last())
}

/// Whether an event is no text, or a clean one.
pub open spec fn clean_event(e: EventView) -> bool {
    match e {
        EventView::Text(raw) => clean_text(raw),
        _ => true,
    }
}

/// Whether every text of a list of events is clean.
pub open spec fn clean_events(events: Seq<EventView>) -> bool {
    forall|i: int| 0 <= i < events.len() ==> clean_event(#[trigger] events[i])
}

pub proof fn lemma_clean_events_append(a: Seq<EventView>, b: Seq<EventView>)
    requires
        clean_events(a),
        clean_events(b),
    ensures
        clean_events(a + b),
{
    assert forall|i: int| 0 <= i < (a + b).len() implies clean_event(#[trigger] (a + b)[i]) by {
        if i < a.len() {
            assert((a + b)[i] == a[i]);
        } else {
            assert((a + b)[i] == b[i - a.len()]);
        }
    }
}

/// Readers give clean events back as they are, trimming or not.
pub proof fn lemma_clean_events_read(events: Seq<EventView>)
    requires
        clean_events(events),
    ensures
        reader_events(events) == events,
        trimmed_reader_events(events) == events,
    decreases events.len(),
{
    if events.len() > 0 {
        let front = events.drop_last();
        assert forall|i: int| 0 <= i < front.len() implies clean_event(#[trigger] front[i]) by {
            assert(front[i] == events[i]);
        }
        lemma_clean_events_read(front);
        let e = events.last();
        assert(clean_event(events[events.len() - 1]));
        match e {
            EventView::Text(raw) => {
                lemma_char_index(raw, '&');
                assert(char_index(raw, '&') == raw.len());
                assert(raw.take(raw.len() as int) =~= raw);
                assert(raw.skip(raw.len() as int) =~= Seq::<char>::empty());
                assert(text_pieces(raw.skip(raw.len() as int)) =~= Seq::<EventView>::empty());
                assert(text_pieces(raw) =~= seq![EventView::Text(raw)]);
                assert(xml_trimmed_start(raw) == raw);
                assert(xml_trimmed_end(raw) == raw);
                let one = seq![EventView::Text(raw)];
                assert(one.drop_last() =~= Seq::<EventView>::empty());
                assert(trimmed_pieces(one.drop_last()) =~= Seq::<EventView>::empty());
                assert(trimmed_pieces(one) =~= seq![EventView::Text(raw)]);
            },
            _ => {},
        }
        assert(front.push(e) =~= events);
        assert(reader_events(events) =~= front + seq![e]);
        assert(trimmed_reader_events(events) =~= front + seq![e]);
    }
}

/// A text element with clean text is clean.
pub proof fn lemma_clean_text_element(name: Seq<char>, attributes: Seq<char>, value: Seq<char>)
    requires
        plain_text(value),
        value.len() > 0,
        !is_xml_space(value[0]),
        !is_xml_space(value.last()),
    ensures
        clean_events(text_element(name, attributes, value)),
{
    lemma_plain_escaped(value);
    assert forall|i: int| 0 <= i < value.len() implies value[i] != '&' by {
        assert(!is_markup_char(value[i]));
    }
    let events = text_element(name, attributes, value);
    assert(clean_event(events[1]));
    assert forall|i: int| 0 <= i < events.len() implies clean_event(#[trigger] events[i]) by {
        if i == 1 {
        }
    }
}

} // verus!
