//! A model of XML markup events and their serialization.
//!
//! Events are what the tokenizer hands to the library; the library rewrites
//! them and serializes them back. Serialization writes each event in the form
//! an XML writer without indentation uses, so that events read from a document
//! and written back reproduce the document's markup.
use crate::text::chars_of;
use vstd::prelude::*;
use vstd::string::StringExecFns;

verus! {

/// The name and the raw attribute text of a start or empty-element tag.
pub struct XmlTag {
    pub name: String,
    /// Everything after the name inside the tag, as it appears in markup.
    pub attributes: String,
}

/// One markup event of an XML document.
pub enum XmlEvent {
    Start(XmlTag),
    End(String),
    Empty(XmlTag),
    /// Character data, escaped as it appears in markup.
    Text(String),
    CData(String),
    Comment(String),
    Decl(String),
    PI(String),
    DocType(String),
    /// An entity or character reference, without `&` and `;`.
    GeneralRef(String),
}

/// The mathematical value of an [`XmlEvent`].
pub enum EventView {
    Start(Seq<char>, Seq<char>),
    End(Seq<char>),
    Empty(Seq<char>, Seq<char>),
    Text(Seq<char>),
    CData(Seq<char>),
    Comment(Seq<char>),
    Decl(Seq<char>),
    PI(Seq<char>),
    DocType(Seq<char>),
    GeneralRef(Seq<char>),
}

impl View for XmlEvent {
    type V = EventView;

    open spec fn view(&self) -> EventView {
        match self {
            XmlEvent::Start(t) => EventView::Start(t.name@, t.attributes@),
            XmlEvent::End(n) => EventView::End(n@),
            XmlEvent::Empty(t) => EventView::Empty(t.name@, t.attributes@),
            XmlEvent::Text(s) => EventView::Text(s@),
            XmlEvent::CData(s) => EventView::CData(s@),
            XmlEvent::Comment(s) => EventView::Comment(s@),
            XmlEvent::Decl(s) => EventView::Decl(s@),
            XmlEvent::PI(s) => EventView::PI(s@),
            XmlEvent::DocType(s) => EventView::DocType(s@),
            XmlEvent::GeneralRef(s) => EventView::GeneralRef(s@),
        }
    }
}

/// The views of a sequence of events.
pub open spec fn event_views(events: Seq<XmlEvent>) -> Seq<EventView> {
    events.map_values(|e: XmlEvent| e@)
}

/// The escaped form of one character in text content: `<`, `>`, `&`, `'`,
/// `"` and carriage return are replaced by references.
pub open spec fn escaped_char(c: char) -> Seq<char> {
    if c == '<' {
        "&lt;"@
    } else if c == '>' {
        "&gt;"@
    } else if c == '&' {
        "&amp;"@
    } else if c == '\'' {
        "&apos;"@
    } else if c == '"' {
        "&quot;"@
    } else if c == '\r' {
        "&#13;"@
    } else {
        seq![c]
    }
}

/// The escaped form of text content.
pub open spec fn escaped_text(s: Seq<char>) -> Seq<char>
    decreases s.len(),
{
    if s.len() == 0 {
        Seq::empty()
    } else {
        escaped_text(s.drop_last()) + escaped_char(s.last())
    }
}

/// The escaped form of one character in an attribute value: as in text, and
/// newline and tab are replaced by character references too.
pub open spec fn escaped_attribute_char(c: char) -> Seq<char> {
    if c == '\n' {
        "&#10;"@
    } else if c == '\t' {
        "&#9;"@
    } else {
        escaped_char(c)
    }
}

/// The escaped form of an attribute value.
pub open spec fn escaped_attribute(s: Seq<char>) -> Seq<char>
    decreases s.len(),
{
    if s.len() == 0 {
        Seq::empty()
    } else {
        escaped_attribute(s.drop_last()) + escaped_attribute_char(s.last())
    }
}

/// The markup of one event.
pub open spec fn event_markup(e: EventView) -> Seq<char> {
    match e {
        EventView::Start(name, attributes) => "<"@ + name + attributes + ">"@,
        EventView::End(name) => "</"@ + name + ">"@,
        EventView::Empty(name, attributes) => "<"@ + name + attributes + "/>"@,
        EventView::Text(s) => s,
        EventView::CData(s) => "<![CDATA["@ + s + "]]>"@,
        EventView::Comment(s) => "<!--"@ + s + "-->"@,
        EventView::Decl(s) => "<?"@ + s + "?>"@,
        EventView::PI(s) => "<?"@ + s + "?>"@,
        EventView::DocType(s) => "<!DOCTYPE "@ + s + ">"@,
        EventView::GeneralRef(s) => "&"@ + s + ";"@,
    }
}

/// The markup of a sequence of events, one after another.
pub open spec fn markup(events: Seq<EventView>) -> Seq<char>
    decreases events.len(),
{
    if events.len() == 0 {
        Seq::empty()
    } else {
        markup(events.drop_last()) + event_markup(events.last())
    }
}

pub proof fn lemma_markup_append(a: Seq<EventView>, b: Seq<EventView>)
    ensures
        markup(a + b) == markup(a) + markup(b),
    decreases b.len(),
{
    if b.len() == 0 {
        assert(a + b =~= a);
    } else {
        lemma_markup_append(a, b.drop_last());
        assert((a + b).drop_last() =~= a + b.drop_last());
    }
}

pub proof fn lemma_escaped_text_append(a: Seq<char>, b: Seq<char>)
    ensures
        escaped_text(a + b) == escaped_text(a) + escaped_text(b),
    decreases b.len(),
{
    if b.len() == 0 {
        assert(a + b =~= a);
    } else {
        lemma_escaped_text_append(a, b.drop_last());
        assert((a + b).drop_last() =~= a + b.drop_last());
    }
}

/// Escapes text content.
pub fn escape_text(s: &str) -> (out: String)
    ensures
        out@ == escaped_text(s@),
{
    let chars = chars_of(s);
    let mut out = String::new();
    let mut i: usize = 0;
    while i < chars.len()
        invariant
            chars@ == s@,
            i <= chars.len(),
            out@ == escaped_text(s@.take(i as int)),
        decreases chars.len() - i,
    {
        let c = chars[i];
        if c == '<' {
            out.append("&lt;");
        } else if c == '>' {
            out.append("&gt;");
        } else if c == '&' {
            out.append("&amp;");
        } else if c == '\'' {
            out.append("&apos;");
        } else if c == '"' {
            out.append("&quot;");
        } else if c == '\r' {
            out.append("&#13;");
        } else {
            out.push(c);
        }
        assert(s@.take(i + 1).drop_last() =~= s@.take(i as int));
        i = i + 1;
    }
    assert(s@.take(chars.len() as int) =~= s@);
    out
}

/// Escapes an attribute value.
pub fn escape_attribute(s: &str) -> (out: String)
    ensures
        out@ == escaped_attribute(s@),
{
    let chars = chars_of(s);
    let mut out = String::new();
    let mut i: usize = 0;
    while i < chars.len()
        invariant
            chars@ == s@,
            i <= chars.len(),
            out@ == escaped_attribute(s@.take(i as int)),
        decreases chars.len() - i,
    {
        let c = chars[i];
        if c == '\n' {
            out.append("&#10;");
        } else if c == '\t' {
            out.append("&#9;");
        } else if c == '<' {
            out.append("&lt;");
        } else if c == '>' {
            out.append("&gt;");
        } else if c == '&' {
            out.append("&amp;");
        } else if c == '\'' {
            out.append("&apos;");
        } else if c == '"' {
            out.append("&quot;");
        } else if c == '\r' {
            out.append("&#13;");
        } else {
            out.push(c);
        }
        assert(s@.take(i + 1).drop_last() =~= s@.take(i as int));
        i = i + 1;
    }
    assert(s@.take(chars.len() as int) =~= s@);
    out
}

/// Appends the markup of one event to `out`.
pub fn write_event(out: &mut String, event: &XmlEvent)
    ensures
        final(out)@ == old(out)@ + event_markup(event@),
{
    match event {
        XmlEvent::Start(t) => {
            out.append("<");
            out.append(t.name.as_str());
            out.append(t.attributes.as_str());
            out.append(">");
        },
        XmlEvent::End(n) => {
            out.append("</");
            out.append(n.as_str());
            out.append(">");
        },
        XmlEvent::Empty(t) => {
            out.append("<");
            out.append(t.name.as_str());
            out.append(t.attributes.as_str());
            out.append("/>");
        },
        XmlEvent::Text(s) => {
            out.append(s.as_str());
        },
        XmlEvent::CData(s) => {
            out.append("<![CDATA[");
            out.append(s.as_str());
            out.append("]]>");
        },
        XmlEvent::Comment(s) => {
            out.append("<!--");
            out.append(s.as_str());
            out.append("-->");
        },
        XmlEvent::Decl(s) => {
            out.append("<?");
            out.append(s.as_str());
            out.append("?>");
        },
        XmlEvent::PI(s) => {
            out.append("<?");
            out.append(s.as_str());
            out.append("?>");
        },
        XmlEvent::DocType(s) => {
            out.append("<!DOCTYPE ");
            out.append(s.as_str());
            out.append(">");
        },
        XmlEvent::GeneralRef(s) => {
            out.append("&");
            out.append(s.as_str());
            out.append(";");
        },
    }
    assert(final(out)@ =~= old(out)@ + event_markup(event@));
}

/// Serializes a sequence of events to markup.
pub fn write_events(events: &[XmlEvent]) -> (out: String)
    ensures
        out@ == markup(event_views(events@)),
{
    let mut out = String::new();
    let mut i: usize = 0;
    while i < events.len()
        invariant
            i <= events.len(),
            out@ == markup(event_views(events@.take(i as int))),
        decreases events.len() - i,
    {
        write_event(&mut out, &events[i]);
        assert(event_views(events@.take(i + 1)).drop_last() =~= event_views(events@.take(i as int)));
        i = i + 1;
    }
    assert(events@.take(events.len() as int) =~= events@);
    out
}

} // verus!
