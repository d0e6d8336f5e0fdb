//! What injecting, reading and removing a policy paragraph guarantee of a
//! document's events.
use crate::ai_policy::{law_prompt_round_trip, parsed_prompt, prompt_text, PolicyView};
use crate::policy_markup::{
    inject_fold, injected_events, is_policy_text, marker_fold, marker_scan_from, marker_step, paragraph_text,
    policy_marker_text, policy_paragraph, rewrite_fold, rewrite_step, rewritten_events, text_fold, MarkerScan,
    RewriteScan, POLICY_PREFIX,
};
use crate::docx::{document_key, package_policy_text, policy_injected};
use crate::xml::{escaped_text, markup, EventView};
use crate::xml_reader::{events_from, markup_reads_back, parsed_events, raw_event_view, tokenizer_step, ReadStep};
use crate::xml_text::{is_markup_char, lemma_plain_decoded, plain_text};
use vstd::prelude::*;
use vstd::utf8::encode_utf8;

verus! {

proof fn lemma_prefix_plain(prompt: Seq<char>)
    requires
        plain_text(prompt),
    ensures
        plain_text(POLICY_PREFIX@ + prompt),
        is_policy_text(POLICY_PREFIX@ + prompt),
{
    reveal_strlit("aigov:policy:");
    let s = POLICY_PREFIX@ + prompt;
    assert forall|i: int| 0 <= i < s.len() implies !is_markup_char(#[trigger] s[i]) by {
        if i >= POLICY_PREFIX@.len() {
            assert(s[i] == prompt[i - POLICY_PREFIX@.len()]);
        }
    }
    assert(s.take(POLICY_PREFIX@.len() as int) =~= POLICY_PREFIX@);
}

proof fn lemma_tag_names()
    ensures
        "w:p"@ != "w:t"@,
        "w:r"@ != "w:t"@,
        "w:rPr"@ != "w:t"@,
        "w:r"@ != "w:p"@,
        "w:rPr"@ != "w:p"@,
        "w:t"@ != "w:p"@,
        "w:p"@.len() == 3,
        "w:t"@.len() == 3,
{
    reveal_strlit("w:t");
    reveal_strlit("w:p");
    reveal_strlit("w:r");
    reveal_strlit("w:rPr");
    assert("w:p"@[2] != "w:t"@[2]);
    assert("w:r"@[2] != "w:t"@[2]);
    assert("w:r"@[2] != "w:p"@[2]);
    assert("w:rPr"@.len() != "w:t"@.len());
}

/// The text of a plain policy's paragraph is its prefix and prompt.
proof fn lemma_policy_paragraph_text(p: PolicyView)
    requires
        plain_text(prompt_text(p)),
    ensures
        paragraph_text(policy_paragraph(p)) == Some(POLICY_PREFIX@ + prompt_text(p)),
        is_policy_text(POLICY_PREFIX@ + prompt_text(p)),
{
    let text = POLICY_PREFIX@ + prompt_text(p);
    lemma_prefix_plain(prompt_text(p));
    lemma_plain_decoded(text);
    let para = policy_paragraph(p);
    lemma_tag_names();
    assert(para.len() == 10);
    assert(para[0] == EventView::Start("w:p"@, Seq::empty()));
    assert(para[1] == EventView::Start("w:r"@, Seq::empty()));
    assert(para[2] == EventView::Start("w:rPr"@, Seq::empty()));
    assert(para[4] == EventView::End("w:rPr"@));
    assert(para[5] == EventView::Start("w:t"@, Seq::empty()));
    assert(para[6] == EventView::Text(escaped_text(text)));
    assert(para[7] == EventView::End("w:t"@));
    assert(para[8] == EventView::End("w:r"@));
    assert(para[9] == EventView::End("w:p"@));
    assert(text_fold(para, 5) == Some((false, Seq::<char>::empty()))) by {
        reveal_with_fuel(text_fold, 6);
    }
    assert(text_fold(para, 10) == Some((false, text))) by {
        reveal_with_fuel(text_fold, 6);
        assert(Seq::<char>::empty() + text =~= text);
    }
}

/// The rewrite of events from a given state.
pub open spec fn rewrite_run(state: Option<RewriteScan>, events: Seq<EventView>, replacement: Seq<EventView>) -> Option<
    RewriteScan,
>
    decreases events.len(),
{
    if events.len() == 0 {
        state
    } else {
        rewrite_step(rewrite_run(state, events.drop_last(), replacement), events.last(), replacement)
    }
}

/// The scan for a policy paragraph from a given state.
pub open spec fn marker_run(state: Option<MarkerScan>, events: Seq<EventView>) -> Option<MarkerScan>
    decreases events.len(),
{
    if events.len() == 0 {
        state
    } else {
        marker_step(marker_run(state, events.drop_last()), events.last())
    }
}

/// The state a rewrite starts from.
pub open spec fn rewrite_start() -> RewriteScan {
    RewriteScan { paragraph: None, out: Seq::empty(), rewritten: false }
}

/// The state a scan for a policy paragraph starts from.
pub open spec fn marker_start() -> MarkerScan {
    MarkerScan { paragraph: None, found: None }
}

proof fn lemma_rewrite_fold_run(events: Seq<EventView>, n: int, replacement: Seq<EventView>)
    requires
        0 <= n <= events.len(),
    ensures
        rewrite_fold(events, n, replacement) == rewrite_run(Some(rewrite_start()), events.take(n), replacement),
    decreases n,
{
    if n > 0 {
        lemma_rewrite_fold_run(events, n - 1, replacement);
        assert(events.take(n).drop_last() =~= events.take(n - 1));
        assert(events.take(n).last() == events[n - 1]);
    } else {
        assert(events.take(0) =~= Seq::<EventView>::empty());
    }
}

proof fn lemma_marker_fold_run(events: Seq<EventView>, n: int)
    requires
        0 <= n <= events.len(),
    ensures
        marker_fold(events, n) == marker_run(Some(marker_start()), events.take(n)),
    decreases n,
{
    if n > 0 {
        lemma_marker_fold_run(events, n - 1);
        assert(events.take(n).drop_last() =~= events.take(n - 1));
        assert(events.take(n).last() == events[n - 1]);
    } else {
        assert(events.take(0) =~= Seq::<EventView>::empty());
    }
}

proof fn lemma_rewrite_run_append(
    state: Option<RewriteScan>,
    a: Seq<EventView>,
    b: Seq<EventView>,
    replacement: Seq<EventView>,
)
    ensures
        rewrite_run(state, a + b, replacement) == rewrite_run(rewrite_run(state, a, replacement), b, replacement),
    decreases b.len(),
{
    if b.len() == 0 {
        assert(a + b =~= a);
    } else {
        lemma_rewrite_run_append(state, a, b.drop_last(), replacement);
        assert((a + b).drop_last() =~= a + b.drop_last());
        assert((a + b).last() == b.last());
    }
}

proof fn lemma_marker_run_append(state: Option<MarkerScan>, a: Seq<EventView>, b: Seq<EventView>)
    ensures
        marker_run(state, a + b) == marker_run(marker_run(state, a), b),
    decreases b.len(),
{
    if b.len() == 0 {
        assert(a + b =~= a);
    } else {
        lemma_marker_run_append(state, a, b.drop_last());
        assert((a + b).drop_last() =~= a + b.drop_last());
        assert((a + b).last() == b.last());
    }
}

/// Once a rewrite has met a policy paragraph it stays so.
proof fn lemma_rewritten_stays(state: RewriteScan, events: Seq<EventView>, replacement: Seq<EventView>)
    requires
        state.rewritten,
    ensures
        rewrite_run(Some(state), events, replacement) matches Some(st) ==> st.rewritten,
    decreases events.len(),
{
    if events.len() > 0 {
        lemma_rewritten_stays(state, events.drop_last(), replacement);
    }
}

/// The flag of a rewrite does not steer it.
proof fn lemma_rewritten_flag(state: RewriteScan, events: Seq<EventView>, replacement: Seq<EventView>)
    ensures
        rewrite_run(Some(RewriteScan { rewritten: true, ..state }), events, replacement) == match rewrite_run(
            Some(state),
            events,
            replacement,
        ) {
            Some(st) => Some(RewriteScan { rewritten: true, ..st }),
            None => None,
        },
    decreases events.len(),
{
    if events.len() > 0 {
        lemma_rewritten_flag(state, events.drop_last(), replacement);
    }
}

/// Once the scan has found a policy paragraph it stops.
proof fn lemma_marker_found_stays(state: MarkerScan, events: Seq<EventView>)
    requires
        state.found is Some,
    ensures
        marker_run(Some(state), events) == Some(state),
    decreases events.len(),
{
    if events.len() > 0 {
        lemma_marker_found_stays(state, events.drop_last());
    }
}

/// Until a rewrite meets a policy paragraph, the scan for one follows the
/// same paragraphs and finds none.
proof fn lemma_marker_follows_rewrite(events: Seq<EventView>, replacement: Seq<EventView>)
    requires
        rewrite_run(Some(rewrite_start()), events, replacement) matches Some(st) && !st.rewritten,
    ensures
        marker_run(Some(marker_start()), events) == Some(
            MarkerScan { paragraph: rewrite_run(Some(rewrite_start()), events, replacement).unwrap().paragraph, found: None },
        ),
    decreases events.len(),
{
    if events.len() > 0 {
        let prev = rewrite_run(Some(rewrite_start()), events.drop_last(), replacement);
        if prev is None {
            assert(rewrite_run(Some(rewrite_start()), events, replacement) is None);
        }
        lemma_marker_follows_rewrite(events.drop_last(), replacement);
    }
}

/// The position before which an injection puts its paragraph, once it has.
pub open spec fn injection_index(events: Seq<EventView>, paragraph: Seq<EventView>, n: int) -> Option<int>
    decreases n,
{
    if n <= 0 || n > events.len() {
        None
    } else {
        match injection_index(events, paragraph, n - 1) {
            Some(j) => Some(j),
            None => if inject_fold(events, n, paragraph).injected {
                Some(n - 1)
            } else {
                None
            },
        }
    }
}

proof fn lemma_inject_shape(events: Seq<EventView>, paragraph: Seq<EventView>, n: int)
    requires
        0 <= n <= events.len(),
    ensures
        inject_fold(events, n, paragraph).injected <==> injection_index(events, paragraph, n) is Some,
        match injection_index(events, paragraph, n) {
            Some(j) => 0 <= j < n && inject_fold(events, n, paragraph).out == events.take(j) + paragraph
                + events.subrange(j, n),
            None => inject_fold(events, n, paragraph).out == events.take(n),
        },
    decreases n,
{
    if n == 0 {
        assert(events.take(0) =~= Seq::<EventView>::empty());
    } else {
        lemma_inject_shape(events, paragraph, n - 1);
        let st = inject_fold(events, n - 1, paragraph);
        let e = events[n - 1];
        let next = inject_fold(events, n, paragraph);
        assert(next == crate::policy_markup::inject_step(st, e, paragraph));
        match injection_index(events, paragraph, n - 1) {
            Some(j) => {
                assert(st.injected);
                assert(next.injected);
                assert(next.out == st.out.push(e));
                assert(events.take(j) + paragraph + events.subrange(j, n) =~= (events.take(j) + paragraph
                    + events.subrange(j, n - 1)).push(e));
            },
            None => {
                assert(!st.injected);
                if next.injected {
                    assert(next.out == (st.out + paragraph).push(e));
                    assert(events.take(n - 1) + paragraph + events.subrange(n - 1, n) =~= (events.take(n - 1)
                        + paragraph).push(e));
                } else {
                    assert(next.out == st.out.push(e));
                    assert(events.take(n) =~= events.take(n - 1).push(e));
                }
            },
        }
    }
}

proof fn lemma_rewrite_policy_paragraph(state: RewriteScan, p: PolicyView)
    requires
        state.paragraph is None,
        plain_text(prompt_text(p)),
    ensures
        rewrite_run(Some(state), policy_paragraph(p), Seq::empty()) == Some(
            RewriteScan { rewritten: true, ..state },
        ),
{
    let para = policy_paragraph(p);
    lemma_policy_paragraph_text(p);
    lemma_tag_names();
    assert(para.len() == 10);
    lemma_rewrite_prefix(state, p, 9);
    assert(para.drop_last() =~= para.take(9));
    assert(para.take(10).drop_last() =~= para.take(9));
    assert(para.take(9).push(para[9]) =~= para);
    assert(para.take(10) =~= para);
    assert(state.out + Seq::<EventView>::empty() =~= state.out);
}

proof fn lemma_rewrite_prefix(state: RewriteScan, p: PolicyView, k: int)
    requires
        state.paragraph is None,
        1 <= k <= 9,
    ensures
        rewrite_run(Some(state), policy_paragraph(p).take(k), Seq::empty()) == Some(
            RewriteScan { paragraph: Some(policy_paragraph(p).take(k)), ..state },
        ),
    decreases k,
{
    let para = policy_paragraph(p);
    lemma_tag_names();
    assert(para.take(k).drop_last() =~= para.take(k - 1));
    assert(para.take(k).last() == para[k - 1]);
    if k == 1 {
        assert(para.take(0) =~= Seq::<EventView>::empty());
        assert(seq![para[0]] =~= para.take(1));
    } else {
        lemma_rewrite_prefix(state, p, k - 1);
        assert(para.take(k - 1).push(para[k - 1]) =~= para.take(k));
    }
}

proof fn lemma_marker_prefix(p: PolicyView, k: int)
    requires
        1 <= k <= 9,
    ensures
        marker_run(Some(marker_start()), policy_paragraph(p).take(k)) == Some(
            MarkerScan { paragraph: Some(policy_paragraph(p).take(k)), found: None },
        ),
    decreases k,
{
    let para = policy_paragraph(p);
    lemma_tag_names();
    assert(para.take(k).drop_last() =~= para.take(k - 1));
    assert(para.take(k).last() == para[k - 1]);
    if k == 1 {
        assert(para.take(0) =~= Seq::<EventView>::empty());
        assert(seq![para[0]] =~= para.take(1));
    } else {
        lemma_marker_prefix(p, k - 1);
        assert(para.take(k - 1).push(para[k - 1]) =~= para.take(k));
    }
}

proof fn lemma_marker_policy_paragraph(p: PolicyView)
    requires
        plain_text(prompt_text(p)),
    ensures
        marker_run(Some(marker_start()), policy_paragraph(p)) == Some(
            MarkerScan { paragraph: None, found: Some(POLICY_PREFIX@ + prompt_text(p)) },
        ),
{
    let para = policy_paragraph(p);
    lemma_policy_paragraph_text(p);
    lemma_marker_prefix(p, 9);
    reveal_strlit("w:p");
    assert(para.len() == 10);
    assert(para.take(10).drop_last() =~= para.take(9));
    assert(para.take(9).push(para[9]) =~= para);
    assert(para.take(10) =~= para);
}

/// Whether the paragraph an injection adds goes where no paragraph of the
/// document is open.
pub open spec fn injected_outside_paragraphs(events: Seq<EventView>, paragraph: Seq<EventView>) -> bool {
    match injection_index(events, paragraph, events.len() as int) {
        Some(j) => rewrite_fold(events, j, Seq::empty()) matches Some(st) && st.paragraph is None,
        None => true,
    }
}

proof fn lemma_injection_split(events: Seq<EventView>, p: PolicyView) -> (j: int)
    requires
        injected_events(events, policy_paragraph(p)) is Some,
    ensures
        0 <= j < events.len(),
        injection_index(events, policy_paragraph(p), events.len() as int) == Some(j),
        injected_events(events, policy_paragraph(p)).unwrap() == events.take(j) + policy_paragraph(p) + events.skip(j),
{
    let para = policy_paragraph(p);
    lemma_inject_shape(events, para, events.len() as int);
    let j = injection_index(events, para, events.len() as int).unwrap();
    assert(events.subrange(j, events.len() as int) =~= events.skip(j));
    j
}

/// Removing the policy paragraph injected into a document that carries no
/// policy (and that removal leaves as it is) gives back the document's
/// events, and reports that a policy was found; this holds for policies
/// whose prompt escaping leaves unchanged, and for injections outside any
/// open paragraph.
pub proof fn law_removing_an_injected_policy_restores_the_document(events: Seq<EventView>, p: PolicyView)
    requires
        plain_text(prompt_text(p)),
        rewritten_events(events, Seq::empty()) == Some((false, events)),
        injected_events(events, policy_paragraph(p)) is Some,
        injected_outside_paragraphs(events, policy_paragraph(p)),
    ensures
        rewritten_events(injected_events(events, policy_paragraph(p)).unwrap(), Seq::empty()) == Some((true, events)),
{
    let para = policy_paragraph(p);
    let empty = Seq::<EventView>::empty();
    let j = lemma_injection_split(events, p);
    let a = events.take(j);
    let b = events.skip(j);
    let out = injected_events(events, para).unwrap();
    lemma_rewrite_fold_run(out, out.len() as int, empty);
    assert(out.take(out.len() as int) =~= out);
    lemma_rewrite_run_append(Some(rewrite_start()), a + para, b, empty);
    lemma_rewrite_run_append(Some(rewrite_start()), a, para, empty);
    lemma_rewrite_fold_run(events, j, empty);
    let sa = rewrite_run(Some(rewrite_start()), a, empty).unwrap();
    lemma_rewrite_policy_paragraph(sa, p);
    lemma_rewritten_flag(sa, b, empty);
    lemma_rewrite_run_append(Some(rewrite_start()), a, b, empty);
    assert(a + b =~= events);
    lemma_rewrite_fold_run(events, events.len() as int, empty);
    assert(events.take(events.len() as int) =~= events);
}

/// The policy injected into a document that carries no policy (and that
/// removal leaves as it is) is the first policy a scan of the result finds,
/// and its prompt reads back as the policy; this holds for policies whose
/// prompt escaping leaves unchanged, and for injections outside any open
/// paragraph.
pub proof fn law_injected_policy_reads_back(events: Seq<EventView>, p: PolicyView)
    requires
        plain_text(prompt_text(p)),
        rewritten_events(events, Seq::empty()) == Some((false, events)),
        injected_events(events, policy_paragraph(p)) is Some,
        injected_outside_paragraphs(events, policy_paragraph(p)),
    ensures
        ({
            let out = injected_events(events, policy_paragraph(p)).unwrap();
            marker_fold(out, out.len() as int) == Some(
                MarkerScan { paragraph: None, found: Some(POLICY_PREFIX@ + prompt_text(p)) },
            )
        }),
        parsed_prompt((POLICY_PREFIX@ + prompt_text(p)).skip(POLICY_PREFIX@.len() as int)) == Some(p),
{
    let para = policy_paragraph(p);
    let empty = Seq::<EventView>::empty();
    let j = lemma_injection_split(events, p);
    let a = events.take(j);
    let b = events.skip(j);
    let out = injected_events(events, para).unwrap();
    lemma_rewrite_fold_run(events, j, empty);
    lemma_rewrite_run_append(Some(rewrite_start()), a, b, empty);
    assert(a + b =~= events);
    lemma_rewrite_fold_run(events, events.len() as int, empty);
    assert(events.take(events.len() as int) =~= events);
    let sa = rewrite_run(Some(rewrite_start()), a, empty).unwrap();
    if sa.rewritten {
        lemma_rewritten_stays(sa, b, empty);
    }
    lemma_marker_follows_rewrite(a, empty);
    lemma_marker_fold_run(out, out.len() as int);
    assert(out.take(out.len() as int) =~= out);
    lemma_marker_run_append(Some(marker_start()), a + para, b);
    lemma_marker_run_append(Some(marker_start()), a, para);
    lemma_marker_policy_paragraph(p);
    let found = MarkerScan { paragraph: None, found: Some(POLICY_PREFIX@ + prompt_text(p)) };
    lemma_marker_found_stays(found, b);
    assert(marker_start() == MarkerScan { paragraph: sa.paragraph, found: None });
    assert((POLICY_PREFIX@ + prompt_text(p)).skip(POLICY_PREFIX@.len() as int) =~= prompt_text(p));
    law_prompt_round_trip(p);
}


/// A policy injected into a document that carries none reads back as that
/// policy: the main part written holds it as its first policy paragraph,
/// whose prompt parses as the policy. This holds for policies whose prompt
/// escaping leaves unchanged, for injections outside any open paragraph,
/// and where the XML reader reads the main part written back as the events
/// written.
pub proof fn law_policy_reads_back_after_injection(contents: Map<Seq<char>, Seq<u8>>, p: PolicyView)
    requires
        contents.dom().contains(document_key()),
        plain_text(prompt_text(p)),
        match parsed_events(contents[document_key()], false) {
            Some(events) => {
                &&& rewritten_events(events, Seq::empty()) == Some((false, events))
                &&& injected_outside_paragraphs(events, policy_paragraph(p))
                &&& match injected_events(events, policy_paragraph(p)) {
                    Some(out) => markup_reads_back(out, false),
                    None => false,
                }
            },
            None => false,
        },
    ensures
        policy_injected(contents, p) matches Some(xml) && package_policy_text(contents.insert(document_key(), xml))
            == Some(Some(POLICY_PREFIX@ + prompt_text(p))),
        parsed_prompt((POLICY_PREFIX@ + prompt_text(p)).skip(POLICY_PREFIX@.len() as int)) == Some(p),
{
    let events = parsed_events(contents[document_key()], false).unwrap();
    law_injected_policy_reads_back(events, p);
    let out = injected_events(events, policy_paragraph(p)).unwrap();
    lemma_policy_marker_text_events(encode_utf8(markup(out)), out);
}


/// What a scan that reads all events gives: the first policy paragraph's
/// text, or none when no paragraph is left open.
pub open spec fn scan_result(state: Option<MarkerScan>) -> Option<Option<Seq<char>>> {
    match state {
        None => None,
        Some(st) => if st.found is Some {
            Some(st.found)
        } else if st.paragraph is Some {
            None
        } else {
            Some(None)
        },
    }
}

proof fn lemma_marker_run_failed(events: Seq<EventView>)
    ensures
        marker_run(None, events) is None,
    decreases events.len(),
{
    if events.len() > 0 {
        lemma_marker_run_failed(events.drop_last());
    }
}

/// Where the reads give events, the scan that stops at the first policy
/// paragraph gives what the scan of all of them gives.
proof fn lemma_marker_scan_events(source: Seq<u8>, index: nat, fuel: nat, st: MarkerScan, rest: Seq<EventView>)
    requires
        events_from(source, false, index, fuel) == Some(rest),
        st.found is None,
    ensures
        marker_scan_from(source, index, fuel, st) == scan_result(marker_run(Some(st), rest)),
    decreases fuel,
{
    match tokenizer_step(source, false, index) {
        ReadStep::Finished => {
            assert(rest =~= Seq::<EventView>::empty());
        },
        ReadStep::Failed => {},
        ReadStep::Event(kind, content) => {
            let e = raw_event_view(kind, content);
            let tail = events_from(source, false, index + 1, (fuel - 1) as nat).unwrap();
            assert(rest == seq![e] + tail);
            lemma_marker_run_append(Some(st), seq![e], tail);
            assert(seq![e].drop_last() =~= Seq::<EventView>::empty());
            assert(marker_run(Some(st), seq![e].drop_last()) == Some(st));
            assert(seq![e].last() == e);
            assert(marker_run(Some(st), seq![e]) == marker_step(Some(st), e));
            match marker_step(Some(st), e) {
                None => lemma_marker_run_failed(tail),
                Some(next) => {
                    if next.found is Some {
                        lemma_marker_found_stays(next, tail);
                    } else {
                        lemma_marker_scan_events(source, index + 1, (fuel - 1) as nat, next, tail);
                    }
                },
            }
        },
    }
}

/// Where the reader gives all events of a document, its policy text is
/// what a scan of those events gives.
proof fn lemma_policy_marker_text_events(xml: Seq<u8>, events: Seq<EventView>)
    requires
        parsed_events(xml, false) == Some(events),
    ensures
        policy_marker_text(xml) == scan_result(marker_fold(events, events.len() as int)),
{
    lemma_marker_scan_events(xml, 0, (xml.len() + 1) as nat, marker_start(), events);
    lemma_marker_fold_run(events, events.len() as int);
    assert(events.take(events.len() as int) =~= events);
}

} // verus!
