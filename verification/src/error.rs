use vstd::prelude::*;

verus! {

/// Errors produced by the database layer's verified logic.
#[derive(Debug, PartialEq, Eq)]
pub enum Error {
    /// A collection name failed validation.
    InvalidCollectionName(String),
    /// A document failed validation.
    InvalidDocument(String),
    /// Encoding or decoding failed.
    Serialization(String),
    /// No collection with the given name exists.
    CollectionNotFound(String),
    /// A collection version ID was required but empty.
    CollectionVersionIdEmpty,
    /// No collection version with the given ID exists.
    CollectionVersionNotFound(String),
    /// Any other failure.
    Other(String),
}

impl Error {
    /// The text the error carries (the name or message it holds; none for
    /// an empty version ID).
    pub fn message(&self) -> (res: &str)
        ensures
            res@ == self.message_spec(),
    {
        match self {
            Error::InvalidCollectionName(m) => m.as_str(),
            Error::InvalidDocument(m) => m.as_str(),
            Error::Serialization(m) => m.as_str(),
            Error::CollectionNotFound(m) => m.as_str(),
            Error::CollectionVersionIdEmpty => {
                proof {
                    reveal_strlit("");
                }
                ""
            },
            Error::CollectionVersionNotFound(m) => m.as_str(),
            Error::Other(m) => m.as_str(),
        }
    }

    pub open spec fn message_spec(&self) -> Seq<char> {
        match self {
            Error::InvalidCollectionName(m) => m@,
            Error::InvalidDocument(m) => m@,
            Error::Serialization(m) => m@,
            Error::CollectionNotFound(m) => m@,
            Error::CollectionVersionIdEmpty => Seq::empty(),
            Error::CollectionVersionNotFound(m) => m@,
            Error::Other(m) => m@,
        }
    }
}

} // verus!
