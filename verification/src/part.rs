//! Names of the parts stored in an OOXML package.
use crate::text::chars_of;
use vstd::prelude::*;
use vstd::std_specs::cmp::PartialEqSpecImpl;
use vstd::std_specs::convert::FromSpecImpl;

verus! {

/// A name without its leading slashes.
pub open spec fn without_leading_slashes(s: Seq<char>) -> Seq<char>
    decreases s.len(),
{
    if s.len() > 0 && s[0] == '/' {
        without_leading_slashes(s.drop_first())
    } else {
        s
    }
}

/// A name with each backslash turned into a forward slash.
pub open spec fn with_forward_slashes(s: Seq<char>) -> Seq<char> {
    s.map_values(|c: char| if c == '\\' { '/' } else { c })
}

/// The normalized form of a part name: leading slashes removed, then
/// backslashes turned into forward slashes.
pub open spec fn normalized_part_name(s: Seq<char>) -> Seq<char> {
    with_forward_slashes(without_leading_slashes(s))
}

/// Normalizing a normalized name changes nothing, unless the normalized
/// name starts with a slash (as one that started with a backslash does).
pub proof fn law_normalization_is_idempotent(s: Seq<char>)
    requires
        !(normalized_part_name(s).len() > 0 && normalized_part_name(s)[0] == '/'),
    ensures
        normalized_part_name(normalized_part_name(s)) == normalized_part_name(s),
{
    let t = normalized_part_name(s);
    assert(without_leading_slashes(t) == t);
    assert(with_forward_slashes(t) =~= t) by {
        assert forall|i: int| 0 <= i < t.len() implies t[i] != '\\' by {
            assert(t[i] == (if without_leading_slashes(s)[i] == '\\' { '/' } else { without_leading_slashes(s)[i] }));
        }
    }
}

/// The name of a part in an OOXML package, such as `word/document.xml`.
///
/// Names are normalized on construction: leading slashes are removed and
/// backslashes become forward slashes.
#[derive(Debug)]
pub struct PartName(String);

impl View for PartName {
    type V = Seq<char>;

    closed spec fn view(&self) -> Seq<char> {
        self.0@
    }
}

impl PartName {
    /// Creates a part name from a path inside the package, normalizing it.
    pub fn new(value: &str) -> (name: PartName)
        ensures
            name@ == normalized_part_name(value@),
    {
        let chars = chars_of(value);
        let mut start: usize = 0;
        assert(value@.skip(0) =~= value@);
        while start < chars.len() && chars[start] == '/'
            invariant
                chars@ == value@,
                start <= chars.len(),
                without_leading_slashes(value@) == without_leading_slashes(value@.skip(start as int)),
            decreases chars.len() - start,
        {
            assert(value@.skip(start as int).drop_first() =~= value@.skip(start + 1));
            start = start + 1;
        }
        let ghost rest = value@.skip(start as int);
        assert(without_leading_slashes(rest) == rest);
        let mut normalized = String::new();
        let mut i: usize = start;
        while i < chars.len()
            invariant
                chars@ == value@,
                start <= i <= chars.len(),
                rest == value@.skip(start as int),
                normalized@ == with_forward_slashes(rest.take(i - start)),
            decreases chars.len() - i,
        {
            let c = chars[i];
            if c == '\\' {
                normalized.push('/');
            } else {
                normalized.push(c);
            }
            assert(rest.take(i + 1 - start) =~= rest.take(i - start).push(c));
            i = i + 1;
            assert(normalized@ =~= with_forward_slashes(rest.take(i - start)));
        }
        assert(rest.take(chars.len() - start) =~= rest);
        PartName(normalized)
    }

    /// A name that is already in normal form, as stored in a package.
    pub(crate) fn from_stored(value: String) -> (name: PartName)
        ensures
            name@ == value@,
    {
        PartName(value)
    }

    /// The name as text.
    pub fn as_str(&self) -> (s: &str)
        ensures
            s@ == self@,
    {
        self.0.as_str()
    }

    /// The name as text, for display.
    pub fn to_string(&self) -> (s: String)
        ensures
            s@ == self@,
    {
        self.0.clone()
    }

    /// A copy of the name.
    pub fn copy(&self) -> (name: PartName)
        ensures
            name@ == self@,
    {
        PartName(self.0.clone())
    }
}

impl PartialEq for PartName {
    fn eq(&self, other: &PartName) -> (same: bool) {
        self.0 == other.0
    }
}

impl PartialEqSpecImpl for PartName {
    open spec fn obeys_eq_spec() -> bool {
        true
    }

    open spec fn eq_spec(&self, other: &PartName) -> bool {
        self@ == other@
    }
}

impl Eq for PartName {}

impl Clone for PartName {
    fn clone(&self) -> (name: PartName)
        ensures
            name@ == self@,
    {
        PartName(self.0.clone())
    }
}

impl From<&str> for PartName {
    fn from(value: &str) -> (name: PartName)
        ensures
            name@ == normalized_part_name(value@),
    {
        PartName::new(value)
    }
}

impl FromSpecImpl<&str> for PartName {
    open spec fn obeys_from_spec() -> bool {
        false
    }

    open spec fn from_spec(value: &str) -> PartName {
        arbitrary()
    }
}

} // verus!
