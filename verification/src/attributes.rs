//! The attributes of a start tag, as the XML reader splits them.
use crate::word_text::is_named;
use vstd::prelude::*;

verus! {

/// One attribute of a tag: its key, its value as written, and its value
/// normalized as XML 1.0 prescribes (`None` when that fails).
pub struct TagAttribute {
    pub key: String,
    pub raw_value: String,
    pub value: Option<String>,
}

/// The mathematical value of a [`TagAttribute`].
pub struct AttributeView {
    pub key: Seq<char>,
    pub raw_value: Seq<char>,
    pub value: Option<Seq<char>>,
}

impl View for TagAttribute {
    type V = AttributeView;

    open spec fn view(&self) -> AttributeView {
        AttributeView {
            key: self.key@,
            raw_value: self.raw_value@,
            value: match self.value {
                Some(v) => Some(v@),
                None => None,
            },
        }
    }
}

/// The views of the items of an attribute list; `None` stands for a
/// malformed attribute.
pub open spec fn attribute_views(items: Seq<Option<TagAttribute>>) -> Seq<Option<AttributeView>> {
    items.map_values(
        |item: Option<TagAttribute>|
            match item {
                Some(a) => Some(a@),
                None => None,
            },
    )
}

/// What `quick_xml`'s attribute iterator yields for the start tag whose name
/// is `name` and whose text after the name is `attributes`: one item per
/// step, `None` where it reports a malformed attribute.
pub uninterp spec fn tag_attributes(name: Seq<char>, attributes: Seq<char>) -> Seq<Option<AttributeView>>;

/// Splits a tag's attribute text with `quick_xml::events::BytesStart::attributes`,
/// keeping each attribute's key, raw value and
/// `Attribute::normalized_value(XmlVersion::Explicit1_0)`. The contract
/// claims only that the list is the iterator's output, item for item.
#[verifier::external_body]
fn read_tag_attributes(name: &str, attributes: &str) -> (found: Vec<Option<TagAttribute>>)
    ensures
        attribute_views(found@) == tag_attributes(name@, attributes@),
{
    let content = format!("{name}{attributes}");
    let tag = quick_xml::events::BytesStart::from_content(content.as_str(), name.len());
    tag.attributes().map(|item| item.ok().map(|attribute| TagAttribute {
        key: attribute.key.as_ref().to_owned(),
        raw_value: attribute.value.as_ref().to_owned(),
        value: attribute.normalized_value(quick_xml::XmlVersion::Explicit1_0).ok().map(|v| v.into_owned()),
    })).collect()
}

/// The normalized value of the first well-formed attribute with the key,
/// skipping malformed ones: `None` when there is none, `Some(None)` when its
/// value cannot be normalized.
pub open spec fn normalized_lookup(items: Seq<Option<AttributeView>>, key: Seq<char>) -> Option<Option<Seq<char>>>
    decreases items.len(),
{
    if items.len() == 0 {
        None
    } else {
        match items[0] {
            Some(a) => if a.key == key {
                Some(a.value)
            } else {
                normalized_lookup(items.drop_first(), key)
            },
            None => normalized_lookup(items.drop_first(), key),
        }
    }
}

/// The raw value of the first attribute with the key, stopping at the first
/// malformed attribute: `None` when one comes before the key is found,
/// `Some(None)` when the key is absent.
pub open spec fn raw_lookup(items: Seq<Option<AttributeView>>, key: Seq<char>) -> Option<Option<Seq<char>>>
    decreases items.len(),
{
    if items.len() == 0 {
        Some(None)
    } else {
        match items[0] {
            Some(a) => if a.key == key {
                Some(Some(a.raw_value))
            } else {
                raw_lookup(items.drop_first(), key)
            },
            None => None,
        }
    }
}

/// The normalized value of the attribute `key` of a tag, as
/// [`normalized_lookup`] finds it.
pub fn normalized_attribute(name: &str, attributes: &str, key: &str) -> (found: Option<Option<String>>)
    ensures
        match found {
            Some(Some(v)) => normalized_lookup(tag_attributes(name@, attributes@), key@) == Some(Some(v@)),
            Some(None) => normalized_lookup(tag_attributes(name@, attributes@), key@) == Some(None::<Seq<char>>),
            None => normalized_lookup(tag_attributes(name@, attributes@), key@) is None,
        },
{
    let items = read_tag_attributes(name, attributes);
    let ghost all = attribute_views(items@);
    let mut i: usize = 0;
    assert(all.skip(0) =~= all);
    while i < items.len()
        invariant
            i <= items.len(),
            all == attribute_views(items@),
            all == tag_attributes(name@, attributes@),
            normalized_lookup(all, key@) == normalized_lookup(all.skip(i as int), key@),
        decreases items.len() - i,
    {
        assert(all.skip(i as int).drop_first() =~= all.skip(i + 1));
        assert(all.skip(i as int)[0] == all[i as int]);
        match &items[i] {
            Some(a) => {
                if is_named(a.key.as_str(), key) {
                    return match &a.value {
                        Some(v) => Some(Some(v.clone())),
                        None => Some(None),
                    };
                }
            },
            None => {},
        }
        i = i + 1;
    }
    assert(all.skip(i as int).len() == 0);
    None
}

/// The raw value of the attribute `key` of a tag, as [`raw_lookup`] finds
/// it: `Err` when a malformed attribute comes first.
pub fn raw_attribute(name: &str, attributes: &str, key: &str) -> (found: Result<Option<String>, ()>)
    ensures
        match found {
            Ok(Some(v)) => raw_lookup(tag_attributes(name@, attributes@), key@) == Some(Some(v@)),
            Ok(None) => raw_lookup(tag_attributes(name@, attributes@), key@) == Some(None::<Seq<char>>),
            Err(_) => raw_lookup(tag_attributes(name@, attributes@), key@) is None,
        },
{
    let items = read_tag_attributes(name, attributes);
    let ghost all = attribute_views(items@);
    let mut i: usize = 0;
    assert(all.skip(0) =~= all);
    while i < items.len()
        invariant
            i <= items.len(),
            all == attribute_views(items@),
            all == tag_attributes(name@, attributes@),
            raw_lookup(all, key@) == raw_lookup(all.skip(i as int), key@),
        decreases items.len() - i,
    {
        assert(all.skip(i as int).drop_first() =~= all.skip(i + 1));
        assert(all.skip(i as int)[0] == all[i as int]);
        match &items[i] {
            Some(a) => {
                if is_named(a.key.as_str(), key) {
                    return Ok(Some(a.raw_value.clone()));
                }
            },
            None => {
                return Err(());
            },
        }
        i = i + 1;
    }
    assert(all.skip(i as int).len() == 0);
    Ok(None)
}

} // verus!
