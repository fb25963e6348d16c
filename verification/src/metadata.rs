//! The metadata saved beside an installed skill.
use vstd::prelude::*;
use crate::text::str_eq;

verus! {

/// A key of the `source` record whose value is a string.
#[derive(Debug, Clone)]
pub struct SourceField {
    pub key: String,
    pub value: String,
}

/// What the `source` entry of a skill's metadata holds: the string itself when
/// it is a string, and the string-valued keys when it is a record.
#[derive(Debug, Clone)]
pub struct SourceValue {
    pub text: Option<String>,
    pub fields: Vec<SourceField>,
}

/// The metadata of an installed skill.
#[derive(Debug, Clone)]
pub struct InstalledSkill {
    pub name: String,
    pub version: String,
    pub slug: Option<String>,
    pub display_name: Option<String>,
    pub target: Option<String>,
    pub source: SourceValue,
}

/// The characters of an optional string.
pub open spec fn opt_view(o: Option<String>) -> Option<Seq<char>> {
    match o {
        Some(s) => Some(s@),
        None => None,
    }
}

/// The characters of an optional string slice.
pub open spec fn opt_str_view(o: Option<&str>) -> Option<Seq<char>> {
    match o {
        Some(s) => Some(s@),
        None => None,
    }
}

/// The string value of the first field named `key` (what
/// `value.get(key).and_then(Value::as_str)` gives).
pub open spec fn field_str(fields: Seq<SourceField>, key: Seq<char>) -> Option<Seq<char>>
    decreases fields.len(),
{
    if fields.len() == 0 {
        None
    } else if fields[0].key@ == key {
        Some(fields[0].value@)
    } else {
        field_str(fields.drop_first(), key)
    }
}

impl SourceValue {
    /// The string stored under `key`, if there is one.
    pub fn get_str<'a>(&'a self, key: &str) -> (r: Option<&'a str>)
        ensures
            opt_str_view(r) == field_str(self.fields@, key@),
    {
        let mut i: usize = 0;
        assert(self.fields@.skip(0) =~= self.fields@);
        while i < self.fields.len()
            invariant
                i <= self.fields.len(),
                field_str(self.fields@, key@) == field_str(self.fields@.skip(i as int), key@),
            decreases self.fields.len() - i,
        {
            if str_eq(self.fields[i].key.as_str(), key) {
                return Some(self.fields[i].value.as_str());
            }
            assert(self.fields@.skip(i as int).drop_first() =~= self.fields@.skip(i + 1));
            i = i + 1;
        }
        None
    }

    /// The string itself, when the value is a string.
    pub fn as_str<'a>(&'a self) -> (r: Option<&'a str>)
        ensures
            opt_str_view(r) == opt_view(self.text),
    {
        match &self.text {
            Some(t) => Some(t.as_str()),
            None => None,
        }
    }
}

} // verus!
