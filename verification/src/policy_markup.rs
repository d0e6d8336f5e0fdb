//! The hidden paragraph that carries an AI policy inside a Word document's
//! main part.
use crate::ai_policy::{parse_prompt, parsed_prompt, prompt_text, AiPolicy, PolicyView};
use crate::error::{invalid_document_with, invalid_policy_with, OfficeError};
use crate::word_text::{copy_event, is_named};
use crate::xml::{event_views, markup, EventView, XmlEvent, XmlTag};
use crate::xml_build::{events_bytes, push_event, push_text_element, text_element};
use crate::xml_reader::{
    event_from_raw, open_tokenizer, parsed_events, raw_event_view, read_events, read_raw_event, reader_reads,
    reader_source, reader_trims_text, tokenizer_step, ReadStep,
};
use crate::xml_text::{decode_text, decoded_text};
use vstd::prelude::*;
use vstd::string::StringExecFns;
use vstd::utf8::encode_utf8;

verus! {

/// The text that starts the hidden paragraph of a policy.
pub const POLICY_PREFIX: &'static str = "aigov:policy:";

/// The text of a paragraph's events so far: whether the reader is inside a
/// `w:t` element, and the decoded text of the `w:t` elements read.
pub open spec fn text_step(state: Option<(bool, Seq<char>)>, event: EventView) -> Option<(bool, Seq<char>)> {
    match state {
        None => None,
        Some((in_text, text)) => match event {
            EventView::Start(name, _) => if name == "w:t"@ {
                Some((true, text))
            } else {
                Some((in_text, text))
            },
            EventView::End(name) => if name == "w:t"@ {
                Some((false, text))
            } else {
                Some((in_text, text))
            },
            EventView::Text(raw) => if in_text {
                match decoded_text(raw) {
                    Some(t) => Some((in_text, text + t)),
                    None => None,
                }
            } else {
                Some((in_text, text))
            },
            _ => Some((in_text, text)),
        },
    }
}

/// The state after the first `n` events of a paragraph.
pub open spec fn text_fold(events: Seq<EventView>, n: int) -> Option<(bool, Seq<char>)>
    decreases n,
{
    if n <= 0 || n > events.len() {
        Some((false, Seq::empty()))
    } else {
        text_step(text_fold(events, n - 1), events[n - 1])
    }
}

/// The text of a paragraph's `w:t` elements; `None` when some text cannot
/// be decoded.
pub open spec fn paragraph_text(events: Seq<EventView>) -> Option<Seq<char>> {
    match text_fold(events, events.len() as int) {
        Some((_, text)) => Some(text),
        None => None,
    }
}

/// Whether a paragraph's text is a policy's: it starts with the prefix.
pub open spec fn is_policy_text(text: Seq<char>) -> bool {
    POLICY_PREFIX@.len() <= text.len() && text.take(POLICY_PREFIX@.len() as int) == POLICY_PREFIX@
}

/// The events of the hidden paragraph that carries a policy: a run whose
/// properties make it invisible, holding the prefix and the policy's prompt.
pub open spec fn policy_paragraph(p: PolicyView) -> Seq<EventView> {
    seq![
        EventView::Start("w:p"@, Seq::empty()),
        EventView::Start("w:r"@, Seq::empty()),
        EventView::Start("w:rPr"@, Seq::empty()),
        EventView::Empty("w:vanish"@, Seq::empty()),
        EventView::End("w:rPr"@),
    ] + text_element("w:t"@, Seq::empty(), POLICY_PREFIX@ + prompt_text(p)) + seq![
        EventView::End("w:r"@),
        EventView::End("w:p"@),
    ]
}

/// The progress of a scan for the first policy paragraph: the events of the
/// open paragraph, and the text of the policy paragraph once one is found.
pub struct MarkerScan {
    pub paragraph: Option<Seq<EventView>>,
    pub found: Option<Seq<char>>,
}

/// One event of the scan for a policy paragraph. A `w:p` start tag opens a
/// paragraph, dropping one left open; its end tag closes it and checks its
/// text. The scan stops at the first policy paragraph. `None` once a
/// paragraph's text cannot be decoded.
pub open spec fn marker_step(state: Option<MarkerScan>, event: EventView) -> Option<MarkerScan> {
    match state {
        None => None,
        Some(st) => if st.found is Some {
            Some(st)
        } else {
            match event {
                EventView::Start(name, _) if name == "w:p"@ => Some(MarkerScan { paragraph: Some(seq![event]), ..st }),
                EventView::End(name) if st.paragraph is Some && name == "w:p"@ => {
                    let closed = st.paragraph.unwrap().push(event);
                    match paragraph_text(closed) {
                        None => None,
                        Some(text) => if is_policy_text(text) {
                            Some(MarkerScan { paragraph: None, found: Some(text) })
                        } else {
                            Some(MarkerScan { paragraph: None, ..st })
                        },
                    }
                },
                _ => match st.paragraph {
                    Some(p) => Some(MarkerScan { paragraph: Some(p.push(event)), ..st }),
                    None => Some(st),
                },
            }
        },
    }
}

/// The scan after the first `n` events.
pub open spec fn marker_fold(events: Seq<EventView>, n: int) -> Option<MarkerScan>
    decreases n,
{
    if n <= 0 || n > events.len() {
        Some(MarkerScan { paragraph: None, found: None })
    } else {
        marker_step(marker_fold(events, n - 1), events[n - 1])
    }
}

/// The scan for the first policy paragraph over the reads of the tokenizer
/// from the one numbered `index` on, at most `fuel` of them, from a scan
/// that has found none yet. It stops at the first policy paragraph; at the
/// end of the input it finds none, unless a paragraph is left open; `None`
/// when a read fails, a paragraph's text cannot be decoded, or the input
/// does not end within `fuel` reads.
pub open spec fn marker_scan_from(source: Seq<u8>, index: nat, fuel: nat, st: MarkerScan) -> Option<Option<Seq<char>>>
    decreases fuel,
{
    if fuel == 0 {
        None
    } else {
        match tokenizer_step(source, false, index) {
            ReadStep::Finished => if st.paragraph is Some {
                None
            } else {
                Some(None)
            },
            ReadStep::Failed => None,
            ReadStep::Event(kind, content) => match marker_step(Some(st), raw_event_view(kind, content)) {
                None => None,
                Some(next) => if next.found is Some {
                    Some(next.found)
                } else {
                    marker_scan_from(source, index + 1, (fuel - 1) as nat, next)
                },
            },
        }
    }
}

/// Whether the scan for the first policy paragraph, from the same reads,
/// ends because a read fails or the input does not end within `fuel`
/// reads.
pub open spec fn marker_scan_reader_fails(source: Seq<u8>, index: nat, fuel: nat, st: MarkerScan) -> bool
    decreases fuel,
{
    if fuel == 0 {
        true
    } else {
        match tokenizer_step(source, false, index) {
            ReadStep::Finished => false,
            ReadStep::Failed => true,
            ReadStep::Event(kind, content) => match marker_step(Some(st), raw_event_view(kind, content)) {
                None => false,
                Some(next) => if next.found is Some {
                    false
                } else {
                    marker_scan_reader_fails(source, index + 1, (fuel - 1) as nat, next)
                },
            },
        }
    }
}

/// Whether reading a document up to its first policy paragraph fails in
/// the reader rather than in the document's content.
pub open spec fn policy_reader_fails(xml: Seq<u8>) -> bool {
    marker_scan_reader_fails(xml, 0, xml.len() + 1, MarkerScan { paragraph: None, found: None })
}

/// The text of the first policy paragraph of a document, read up to that
/// paragraph: `Some(None)` when there is none; `None` when the document
/// cannot be read up to there, a paragraph's text cannot be decoded, or
/// (with no policy found) a paragraph is left open.
pub open spec fn policy_marker_text(xml: Seq<u8>) -> Option<Option<Seq<char>>> {
    marker_scan_from(xml, 0, xml.len() + 1, MarkerScan { paragraph: None, found: None })
}

/// The progress of rewriting policy paragraphs: the open paragraph's events,
/// the events written, and whether a policy paragraph was met.
pub struct RewriteScan {
    pub paragraph: Option<Seq<EventView>>,
    pub out: Seq<EventView>,
    pub rewritten: bool,
}

/// One event of rewriting policy paragraphs: paragraphs are held until their
/// end tag; a policy paragraph is replaced by `replacement`, any other is
/// written as it was; events outside paragraphs are written as they come.
pub open spec fn rewrite_step(
    state: Option<RewriteScan>,
    event: EventView,
    replacement: Seq<EventView>,
) -> Option<RewriteScan> {
    match state {
        None => None,
        Some(st) => match event {
            EventView::Start(name, _) if name == "w:p"@ => Some(RewriteScan { paragraph: Some(seq![event]), ..st }),
            EventView::End(name) if st.paragraph is Some && name == "w:p"@ => {
                let closed = st.paragraph.unwrap().push(event);
                match paragraph_text(closed) {
                    None => None,
                    Some(text) => if is_policy_text(text) {
                        Some(RewriteScan { paragraph: None, out: st.out + replacement, rewritten: true })
                    } else {
                        Some(RewriteScan { paragraph: None, out: st.out + closed, ..st })
                    },
                }
            },
            _ => match st.paragraph {
                Some(p) => Some(RewriteScan { paragraph: Some(p.push(event)), ..st }),
                None => Some(RewriteScan { out: st.out.push(event), ..st }),
            },
        },
    }
}

/// The rewrite after the first `n` events.
pub open spec fn rewrite_fold(events: Seq<EventView>, n: int, replacement: Seq<EventView>) -> Option<RewriteScan>
    decreases n,
{
    if n <= 0 || n > events.len() {
        Some(RewriteScan { paragraph: None, out: Seq::empty(), rewritten: false })
    } else {
        rewrite_step(rewrite_fold(events, n - 1, replacement), events[n - 1], replacement)
    }
}

/// A document's events with every policy paragraph replaced: whether one
/// was met, and the events; `None` when a paragraph's text cannot be decoded
/// or a paragraph is left open.
pub open spec fn rewritten_events(events: Seq<EventView>, replacement: Seq<EventView>) -> Option<(bool, Seq<EventView>)> {
    match rewrite_fold(events, events.len() as int, replacement) {
        None => None,
        Some(st) => if st.paragraph is Some {
            None
        } else {
            Some((st.rewritten, st.out))
        },
    }
}

/// The progress of injecting a policy paragraph: the depth inside `w:body`
/// (`None` outside it), whether the paragraph was written, and the events
/// written.
pub struct InjectScan {
    pub body_depth: Option<nat>,
    pub injected: bool,
    pub out: Seq<EventView>,
}

/// One event of injecting a policy paragraph: it goes before the first
/// section properties directly inside the body, or else before the end of
/// the body.
pub open spec fn inject_step(st: InjectScan, event: EventView, paragraph: Seq<EventView>) -> InjectScan {
    match event {
        EventView::Start(name, _) => {
            let before = st.body_depth == Some(1nat) && name == "w:sectPr"@ && !st.injected;
            let out = if before { st.out + paragraph } else { st.out };
            InjectScan {
                body_depth: if name == "w:body"@ {
                    Some(1nat)
                } else {
                    match st.body_depth {
                        Some(d) => Some(d + 1),
                        None => None,
                    }
                },
                injected: st.injected || before,
                out: out.push(event),
            }
        },
        EventView::Empty(name, _) => {
            let before = st.body_depth == Some(1nat) && name == "w:sectPr"@ && !st.injected;
            let out = if before { st.out + paragraph } else { st.out };
            InjectScan { injected: st.injected || before, out: out.push(event), ..st }
        },
        EventView::End(name) => {
            let before = name == "w:body"@ && !st.injected;
            let out = if before { st.out + paragraph } else { st.out };
            InjectScan {
                body_depth: if name == "w:body"@ {
                    None
                } else {
                    match st.body_depth {
                        Some(d) => Some(if d > 0 { (d - 1) as nat } else { 0nat }),
                        None => None,
                    }
                },
                injected: st.injected || before,
                out: out.push(event),
            }
        },
        _ => InjectScan { out: st.out.push(event), ..st },
    }
}

/// The injection after the first `n` events.
pub open spec fn inject_fold(events: Seq<EventView>, n: int, paragraph: Seq<EventView>) -> InjectScan
    decreases n,
{
    if n <= 0 || n > events.len() {
        InjectScan { body_depth: None, injected: false, out: Seq::empty() }
    } else {
        inject_step(inject_fold(events, n - 1, paragraph), events[n - 1], paragraph)
    }
}

/// A document's events with a paragraph injected into the body; `None` when
/// the document has no body.
pub open spec fn injected_events(events: Seq<EventView>, paragraph: Seq<EventView>) -> Option<Seq<EventView>> {
    let st = inject_fold(events, events.len() as int, paragraph);
    if st.injected {
        Some(st.out)
    } else {
        None
    }
}

fn invalid_policy(message: &str) -> (e: OfficeError)
    ensures
        invalid_policy_with(e, message@),
{
    OfficeError::InvalidAiPolicy(message.to_owned())
}

/// The text of a paragraph's `w:t` elements.
pub fn paragraph_policy_text(events: &Vec<XmlEvent>) -> (text: Result<String, OfficeError>)
    ensures
        match text {
            Ok(t) => paragraph_text(event_views(events@)) == Some(t@),
            Err(e) => paragraph_text(event_views(events@)) is None && e is InvalidAiPolicy,
        },
{
    let ghost ev = event_views(events@);
    let mut in_text = false;
    let mut text = String::new();
    let mut k: usize = 0;
    while k < events.len()
        invariant
            k <= events.len(),
            ev == event_views(events@),
            text_fold(ev, k as int) == Some((in_text, text@)),
        decreases events.len() - k,
    {
        match &events[k] {
            XmlEvent::Start(tag) => {
                if is_named(tag.name.as_str(), "w:t") {
                    in_text = true;
                }
            },
            XmlEvent::End(name) => {
                if is_named(name.as_str(), "w:t") {
                    in_text = false;
                }
            },
            XmlEvent::Text(raw) => {
                if in_text {
                    match decode_text(raw.as_str()) {
                        Ok(t) => text.append(t.as_str()),
                        Err(detail) => {
                            proof {
                                lemma_text_failed(ev, k + 1, ev.len() as int);
                            }
                            return Err(OfficeError::InvalidAiPolicy(detail));
                        },
                    }
                }
            },
            _ => {},
        }
        k = k + 1;
    }
    Ok(text)
}

proof fn lemma_text_failed(events: Seq<EventView>, n: int, m: int)
    requires
        0 < n <= m <= events.len(),
        text_fold(events, n) is None,
    ensures
        text_fold(events, m) is None,
    decreases m - n,
{
    if n < m {
        lemma_text_failed(events, n, m - 1);
    }
}

/// Whether a paragraph's text starts with the policy prefix.
pub fn paragraph_contains_policy(events: &Vec<XmlEvent>) -> (found: Result<bool, OfficeError>)
    ensures
        match found {
            Ok(b) => paragraph_text(event_views(events@)) matches Some(t) && b == is_policy_text(t),
            Err(e) => paragraph_text(event_views(events@)) is None && e is InvalidAiPolicy,
        },
{
    let text = paragraph_policy_text(events)?;
    Ok(starts_with_prefix(text.as_str()))
}

fn starts_with_prefix(text: &str) -> (found: bool)
    ensures
        found == is_policy_text(text@),
{
    let chars = crate::text::chars_of(text);
    let prefix = crate::text::chars_of(POLICY_PREFIX);
    if prefix.len() > chars.len() {
        return false;
    }
    let found = crate::text::matches_at(chars.as_slice(), prefix.as_slice(), 0);
    proof {
        assert(chars@.subrange(0, prefix@.len() as int) =~= chars@.take(prefix@.len() as int));
    }
    found
}

/// Finds the text of the first policy paragraph of a document, reading its
/// events one at a time up to that paragraph.
fn find_policy_text(xml: &[u8]) -> (found: Result<Option<String>, OfficeError>)
    ensures
        match found {
            Ok(Some(t)) => policy_marker_text(xml@) == Some(Some(t@)) && is_policy_text(t@),
            Ok(None) => policy_marker_text(xml@) == Some(None::<Seq<char>>),
            Err(e) => policy_marker_text(xml@) is None && if policy_reader_fails(xml@) {
                e is Xml
            } else {
                e is InvalidAiPolicy
            },
        },
{
    let mut reader = open_tokenizer(xml);
    let ghost mut reads: nat = 0;
    let mut remaining: usize = xml.len();
    let mut paragraph: Option<Vec<XmlEvent>> = None;
    loop
        invariant
            reader_source(reader) == xml@,
            !reader_trims_text(reader),
            reader_reads(reader) == reads,
            reads + remaining == xml.len(),
            policy_marker_text(xml@) == marker_scan_from(
                xml@,
                reads,
                (remaining + 1) as nat,
                MarkerScan {
                    paragraph: match paragraph {
                        Some(p) => Some(event_views(p@)),
                        None => None,
                    },
                    found: None,
                },
            ),
            policy_reader_fails(xml@) == marker_scan_reader_fails(
                xml@,
                reads,
                (remaining + 1) as nat,
                MarkerScan {
                    paragraph: match paragraph {
                        Some(p) => Some(event_views(p@)),
                        None => None,
                    },
                    found: None,
                },
            ),
        decreases remaining,
    {
        let outcome = read_raw_event(&mut reader);
        proof {
            reads = reads + 1;
        }
        match outcome {
            Ok(Some((kind, content))) => {
                let event = event_from_raw(kind, content);
                let is_start = match &event {
                    XmlEvent::Start(tag) => is_named(tag.name.as_str(), "w:p"),
                    _ => false,
                };
                let is_end = match &event {
                    XmlEvent::End(name) => paragraph.is_some() && is_named(name.as_str(), "w:p"),
                    _ => false,
                };
                if is_start {
                    let mut opened: Vec<XmlEvent> = Vec::new();
                    opened.push(event);
                    assert(event_views(opened@) =~= seq![event@]);
                    paragraph = Some(opened);
                } else if is_end {
                    let mut closed = paragraph.take().unwrap();
                    let ghost before = event_views(closed@);
                    closed.push(event);
                    assert(event_views(closed@) =~= before.push(event@));
                    let text = paragraph_policy_text(&closed)?;
                    if starts_with_prefix(text.as_str()) {
                        return Ok(Some(text));
                    }
                } else {
                    match paragraph.take() {
                        Some(mut p) => {
                            let ghost before = event_views(p@);
                            p.push(event);
                            assert(event_views(p@) =~= before.push(event@));
                            paragraph = Some(p);
                        },
                        None => {},
                    }
                }
                if remaining == 0 {
                    proof {
                        reveal_with_fuel(marker_scan_from, 2);
                        reveal_with_fuel(marker_scan_reader_fails, 2);
                    }
                    return Err(OfficeError::Xml(String::from_str("XML document does not end")));
                }
                remaining = remaining - 1;
            },
            Ok(None) => {
                if paragraph.is_some() {
                    return Err(invalid_policy("unterminated Word paragraph"));
                }
                return Ok(None);
            },
            Err(message) => {
                return Err(OfficeError::Xml(message));
            },
        }
    }
}

/// Whether a document's main part holds a policy paragraph.
pub fn has_policy_marker(xml: &[u8]) -> (found: Result<bool, OfficeError>)
    ensures
        match policy_marker_text(xml@) {
            Some(t) => found == Ok::<bool, OfficeError>(t is Some),
            None => found matches Err(e) && if policy_reader_fails(xml@) {
                e is Xml
            } else {
                e is InvalidAiPolicy
            },
        },
{
    let text = find_policy_text(xml)?;
    Ok(text.is_some())
}

/// The policy that a document's main part carries: `None` when it has no
/// policy paragraph.
pub fn read_policy(xml: &[u8]) -> (policy: Result<Option<AiPolicy>, OfficeError>)
    ensures
        match policy_marker_text(xml@) {
            Some(None) => policy matches Ok(None),
            Some(Some(t)) => match parsed_prompt(t.skip(POLICY_PREFIX@.len() as int)) {
                Some(p) => policy matches Ok(Some(q)) && q@ == p,
                None => policy matches Err(e) && e is InvalidAiPolicy,
            },
            None => policy matches Err(e) && if policy_reader_fails(xml@) {
                e is Xml
            } else {
                e is InvalidAiPolicy
            },
        },
{
    match find_policy_text(xml)? {
        None => Ok(None),
        Some(text) => {
            let chars = crate::text::chars_of(text.as_str());
            let prefix_len = POLICY_PREFIX.unicode_len();
            proof {
                reveal_strlit("aigov:policy:");
            }
            let prompt = crate::text::string_of_range(chars.as_slice(), prefix_len, chars.len());
            assert(prompt@ =~= text@.skip(POLICY_PREFIX@.len() as int));
            match parse_prompt(prompt.as_str()) {
                Some(p) => Ok(Some(p)),
                None => Err(invalid_policy("Invalid policy prompt")),
            }
        },
    }
}

fn push_policy_paragraph(events: &mut Vec<XmlEvent>, policy: &AiPolicy)
    ensures
        event_views(final(events)@) == event_views(old(events)@) + policy_paragraph(policy@),
{
    let ghost base = event_views(events@);
    push_event(events, XmlEvent::Start(XmlTag { name: String::from_str("w:p"), attributes: String::new() }));
    push_event(events, XmlEvent::Start(XmlTag { name: String::from_str("w:r"), attributes: String::new() }));
    push_event(events, XmlEvent::Start(XmlTag { name: String::from_str("w:rPr"), attributes: String::new() }));
    push_event(events, XmlEvent::Empty(XmlTag { name: String::from_str("w:vanish"), attributes: String::new() }));
    push_event(events, XmlEvent::End(String::from_str("w:rPr")));
    let mut text = String::from_str(POLICY_PREFIX);
    let prompt = policy.to_prompt();
    text.append(prompt.as_str());
    push_text_element(events, "w:t", "", text.as_str());
    push_event(events, XmlEvent::End(String::from_str("w:r")));
    push_event(events, XmlEvent::End(String::from_str("w:p")));
    proof {
        reveal_strlit("");
        assert(""@ =~= Seq::<char>::empty());
        assert(event_views(events@) =~= base + policy_paragraph(policy@));
    }
}

proof fn lemma_rewrite_failed(events: Seq<EventView>, n: int, m: int, replacement: Seq<EventView>)
    requires
        0 < n <= m <= events.len(),
        rewrite_fold(events, n, replacement) is None,
    ensures
        rewrite_fold(events, m, replacement) is None,
    decreases m - n,
{
    if n < m {
        lemma_rewrite_failed(events, n, m - 1, replacement);
    }
}

/// The events that replace a policy paragraph: the new policy's paragraph,
/// or nothing.
pub open spec fn replacement_events(replacement: Option<PolicyView>) -> Seq<EventView> {
    match replacement {
        Some(p) => policy_paragraph(p),
        None => Seq::empty(),
    }
}

/// Replaces every policy paragraph of a document's main part with the new
/// policy's paragraph, or removes them: whether one was found, and the
/// rewritten part.
pub fn rewrite_hidden_policy(xml: &[u8], replacement: Option<&AiPolicy>) -> (rewritten: Result<(bool, Vec<u8>), OfficeError>)
    ensures
        ({
            let repl = replacement_events(
                match replacement {
                    Some(p) => Some(p@),
                    None => None,
                },
            );
            match parsed_events(xml@, false) {
                Some(events) => match rewritten_events(events, repl) {
                    Some((found, out)) => rewritten matches Ok((b, bytes)) && b == found && bytes@ == encode_utf8(
                        markup(out),
                    ),
                    None => rewritten matches Err(e) && e is InvalidAiPolicy && (rewrite_fold(
                        events,
                        events.len() as int,
                        repl,
                    ) is Some ==> invalid_policy_with(e, "unterminated Word paragraph"@)),
                },
                None => rewritten matches Err(e) && e is Xml,
            }
        }),
{
    let ghost repl = replacement_events(
        match replacement {
            Some(p) => Some(p@),
            None => None,
        },
    );
    let events = read_events(xml, false)?;
    let ghost ev = event_views(events@);
    let mut paragraph: Option<Vec<XmlEvent>> = None;
    let mut out: Vec<XmlEvent> = Vec::new();
    let mut rewritten = false;
    let mut k: usize = 0;
    assert(event_views(out@) =~= Seq::<EventView>::empty());
    while k < events.len()
        invariant
            k <= events.len(),
            ev == event_views(events@),
            parsed_events(xml@, false) == Some(ev),
            repl == replacement_events(
                match replacement {
                    Some(p) => Some(p@),
                    None => None,
                },
            ),
            rewrite_fold(ev, k as int, repl) == Some(
                RewriteScan {
                    paragraph: match paragraph {
                        Some(p) => Some(event_views(p@)),
                        None => None,
                    },
                    out: event_views(out@),
                    rewritten,
                },
            ),
        decreases events.len() - k,
    {
        let event = copy_event(&events[k]);
        let is_start = match &event {
            XmlEvent::Start(tag) => is_named(tag.name.as_str(), "w:p"),
            _ => false,
        };
        let is_end = match &event {
            XmlEvent::End(name) => paragraph.is_some() && is_named(name.as_str(), "w:p"),
            _ => false,
        };
        if is_start {
            let mut opened: Vec<XmlEvent> = Vec::new();
            opened.push(event);
            assert(event_views(opened@) =~= seq![event@]);
            paragraph = Some(opened);
        } else if is_end {
            let mut closed = paragraph.take().unwrap();
            let ghost before = event_views(closed@);
            closed.push(event);
            assert(event_views(closed@) =~= before.push(event@));
            match paragraph_contains_policy(&closed) {
                Ok(true) => {
                    rewritten = true;
                    match replacement {
                        Some(policy) => push_policy_paragraph(&mut out, policy),
                        None => {
                            assert(event_views(out@) + repl =~= event_views(out@));
                        },
                    }
                },
                Ok(false) => {
                    let ghost out_before = event_views(out@);
                    let mut i: usize = 0;
                    while i < closed.len()
                        invariant
                            i <= closed.len(),
                            event_views(out@) == out_before + event_views(closed@).take(i as int),
                        decreases closed.len() - i,
                    {
                        let ghost o = event_views(out@);
                        out.push(copy_event(&closed[i]));
                        assert(event_views(out@) =~= o.push(closed@[i as int]@));
                        assert(event_views(closed@).take(i + 1) =~= event_views(closed@).take(i as int).push(
                            closed@[i as int]@,
                        ));
                        i = i + 1;
                    }
                    assert(event_views(closed@).take(closed.len() as int) =~= event_views(closed@));
                },
                Err(e) => {
                    proof {
                        lemma_rewrite_failed(ev, k + 1, ev.len() as int, repl);
                    }
                    return Err(e);
                },
            }
        } else {
            match paragraph.take() {
                Some(mut p) => {
                    let ghost before = event_views(p@);
                    p.push(event);
                    assert(event_views(p@) =~= before.push(event@));
                    paragraph = Some(p);
                },
                None => {
                    push_event(&mut out, event);
                },
            }
        }
        k = k + 1;
    }
    if paragraph.is_some() {
        return Err(invalid_policy("unterminated Word paragraph"));
    }
    Ok((rewritten, events_bytes(&out)))
}

/// Writes a policy's hidden paragraph into a document's main part, before
/// the body's section properties or else at the end of the body.
pub fn write_hidden_policy(xml: &[u8], policy: &AiPolicy) -> (written: Result<Vec<u8>, OfficeError>)
    ensures
        match parsed_events(xml@, false) {
            Some(events) => match injected_events(events, policy_paragraph(policy@)) {
                Some(out) => written matches Ok(bytes) && bytes@ == encode_utf8(markup(out)),
                None => written matches Err(e) && invalid_document_with(e, "Word document has no body element"@),
            },
            None => written matches Err(e) && e is Xml,
        },
{
    let ghost paragraph = policy_paragraph(policy@);
    let events = read_events(xml, false)?;
    let ghost ev = event_views(events@);
    let mut body_depth: Option<usize> = None;
    let mut injected = false;
    let mut out: Vec<XmlEvent> = Vec::new();
    let mut k: usize = 0;
    assert(event_views(out@) =~= Seq::<EventView>::empty());
    while k < events.len()
        invariant
            k <= events.len(),
            ev == event_views(events@),
            paragraph == policy_paragraph(policy@),
            parsed_events(xml@, false) == Some(ev),
            match body_depth {
                Some(d) => d <= k,
                None => true,
            },
            inject_fold(ev, k as int, paragraph) == (InjectScan {
                body_depth: match body_depth {
                    Some(d) => Some(d as nat),
                    None => None,
                },
                injected,
                out: event_views(out@),
            }),
        decreases events.len() - k,
    {
        let event = copy_event(&events[k]);
        match &event {
            XmlEvent::Start(tag) => {
                let is_body = is_named(tag.name.as_str(), "w:body");
                let at_section = body_depth == Some(1usize) && is_named(tag.name.as_str(), "w:sectPr");
                if at_section && !injected {
                    push_policy_paragraph(&mut out, policy);
                    injected = true;
                }
                if is_body {
                    body_depth = Some(1);
                } else {
                    match body_depth {
                        Some(d) => {
                            body_depth = Some(d + 1);
                        },
                        None => {},
                    }
                }
            },
            XmlEvent::Empty(tag) => {
                let at_section = body_depth == Some(1usize) && is_named(tag.name.as_str(), "w:sectPr");
                if at_section && !injected {
                    push_policy_paragraph(&mut out, policy);
                    injected = true;
                }
            },
            XmlEvent::End(name) => {
                let is_body = is_named(name.as_str(), "w:body");
                if is_body && !injected {
                    push_policy_paragraph(&mut out, policy);
                    injected = true;
                }
                if is_body {
                    body_depth = None;
                } else {
                    match body_depth {
                        Some(d) => {
                            body_depth = Some(if d > 0 { d - 1 } else { 0 });
                        },
                        None => {},
                    }
                }
            },
            _ => {},
        }
        push_event(&mut out, event);
        k = k + 1;
    }
    if !injected {
        return Err(OfficeError::InvalidDocument(String::from_str("Word document has no body element")));
    }
    Ok(events_bytes(&out))
}

} // verus!
