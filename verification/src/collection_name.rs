//! Validated collection name type.

use vstd::prelude::*;
use crate::error::Error;
use crate::text::contains_char;
use vstd::string::StringExecFns;
use vstd::std_specs::cmp::PartialEqSpec;

verus! {

/// A validated collection name.
///
/// Collection names must be non-empty and cannot contain forward slashes
/// (used as key separators in the storage layer) or null bytes.
#[derive(Debug, Clone, Eq, Hash)]
pub struct CollectionName(String);

/// Whether `name` is accepted as a collection name.
pub open spec fn valid_collection_name(name: Seq<char>) -> bool {
    name.len() > 0 && !name.contains('/') && !name.contains('\0')
}

/// The message carried by the error that `CollectionName::new` returns for `name`.
pub open spec fn collection_name_error(name: Seq<char>) -> Seq<char> {
    if name.len() == 0 {
        "collection name cannot be empty"@
    } else if name.contains('/') {
        "collection name '"@ + name + "' cannot contain '/'"@
    } else {
        "collection name '"@ + name + "' cannot contain null bytes"@
    }
}

impl View for CollectionName {
    type V = Seq<char>;

    closed spec fn view(&self) -> Seq<char> {
        self.0@
    }
}

impl CollectionName {
    /// Create a new validated collection name.
    ///
    /// Fails with `Error::InvalidCollectionName` if the name is empty, contains
    /// a forward slash, or contains a null byte (checked in that order).
    pub fn new(name: &str) -> (res: Result<CollectionName, Error>)
        ensures
            valid_collection_name(name@) ==> (res matches Ok(n) && n@ == name@),
            !valid_collection_name(name@) ==> (res matches Err(Error::InvalidCollectionName(m))
                && m@ == collection_name_error(name@)),
    {
        if name.is_empty() {
            return Err(Error::InvalidCollectionName(String::from_str("collection name cannot be empty")));
        }
        if contains_char(name, '/') {
            let mut m = String::from_str("collection name '");
            m.append(name);
            m.append("' cannot contain '/'");
            return Err(Error::InvalidCollectionName(m));
        }
        if contains_char(name, '\0') {
            let mut m = String::from_str("collection name '");
            m.append(name);
            m.append("' cannot contain null bytes");
            return Err(Error::InvalidCollectionName(m));
        }
        Ok(CollectionName(String::from_str(name)))
    }

    /// The collection name as a string slice.
    pub fn as_str(&self) -> (res: &str)
        ensures
            res@ == self@,
    {
        self.0.as_str()
    }

    /// Consume the name and return the inner `String`.
    pub fn into_string(self) -> (res: String)
        ensures
            res@ == self@,
    {
        self.0
    }
}

impl PartialEq for CollectionName {
    fn eq(&self, other: &Self) -> (res: bool) {
        self.0 == other.0
    }
}

impl vstd::std_specs::cmp::PartialEqSpecImpl for CollectionName {
    open spec fn obeys_eq_spec() -> bool {
        true
    }

    open spec fn eq_spec(&self, other: &Self) -> bool {
        self@ == other@
    }
}

/// A name made from text `s` gives that text back, and making a name from
/// that text again succeeds with an equal name: given that `new(s)` gave
/// `n`, and `new(n.as_str())` gave `m`.
pub proof fn law_name_round_trip(s: Seq<char>, n: CollectionName, m: CollectionName)
    requires
        valid_collection_name(s),
        n@ == s,
        m@ == n@,
    ensures
        valid_collection_name(n@),
        n@ == s,
        m.eq_spec(&n),
        n.eq_spec(&m),
{
}

} // verus!
