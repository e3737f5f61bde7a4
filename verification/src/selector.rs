//! Which collection versions a request selects.
//!
//! The precedence between the selectors is load-bearing: `collection_id` is a
//! candidate selector only, so a name plus a disagreeing collection id still
//! returns the named collection; and `name` with `get_inactive` deliberately
//! misses the active-by-name case, which is how an inactive collection is
//! reached by name.

use vstd::prelude::*;
use crate::schema::CollectionVersion;
use crate::text::{opt_view, views};

verus! {

/// The collection lookup options.
#[derive(Debug, Clone, Eq)]
pub struct CollectionSelector {
    /// Restrict to these collection names (None = every name).
    pub names: Option<Vec<String>>,
    /// Restrict to the collection version with this version id.
    pub version_id: Option<String>,
    /// Restrict to versions belonging to this collection id.
    pub collection_id: Option<String>,
    /// Include inactive collection versions.
    pub get_inactive: bool,
}

impl CollectionSelector {
    pub open spec fn unfiltered_spec(&self) -> bool {
        self.names is None && self.version_id is None && self.collection_id is None
            && !self.get_inactive
    }

    pub open spec fn version_lookup_spec(&self) -> bool {
        self.version_id is Some && (self.get_inactive || self.names is None)
    }

    pub open spec fn applies_collection_id_spec(&self) -> bool {
        (self.get_inactive || self.names is None) && self.version_id is None
    }

    /// Whether `c` is selected.
    pub open spec fn selects_spec(&self, c: &CollectionVersion) -> bool {
        &&& (self.version_id matches Some(id) ==> c.version_id@ == id@)
        &&& (self.names matches Some(names) ==> exists|i: int|
                0 <= i < names.len() && #[trigger] names@[i]@ == c.name@)
        &&& (self.applies_collection_id_spec() ==> (self.collection_id matches Some(id)
                ==> c.collection_id@ == id@))
        &&& (self.get_inactive || c.is_active || self.version_lookup_spec())
    }

    /// Select everything active.
    pub fn all() -> (res: Self)
        ensures
            res.names is None,
            res.version_id is None,
            res.collection_id is None,
            !res.get_inactive,
    {
        CollectionSelector { names: None, version_id: None, collection_id: None, get_inactive: false }
    }

    /// Select only the named collections.
    pub fn with_names(names: Vec<String>) -> (res: Self)
        ensures
            res.names == Some(names),
            res.version_id is None,
            res.collection_id is None,
            !res.get_inactive,
    {
        CollectionSelector {
            names: Some(names),
            version_id: None,
            collection_id: None,
            get_inactive: false,
        }
    }

    /// Whether this selects everything active, narrowing nothing.
    pub fn is_unfiltered(&self) -> (res: bool)
        ensures
            res == self.unfiltered_spec(),
    {
        self.names.is_none() && self.version_id.is_none() && self.collection_id.is_none()
            && !self.get_inactive
    }

    /// Whether inactive versions have to be loaded to answer this selection:
    /// a version asked for directly is returned whether or not it is active.
    pub fn needs_all_versions(&self) -> (res: bool)
        ensures
            res == (self.get_inactive || self.version_lookup_spec()),
    {
        self.get_inactive || self.resolves_by_version_lookup()
    }

    /// Whether the selection is resolved by looking the version id up directly,
    /// rather than using it only as a filter on an active-by-name candidate.
    pub fn resolves_by_version_lookup(&self) -> (res: bool)
        ensures
            res == self.version_lookup_spec(),
    {
        self.version_id.is_some() && (self.get_inactive || self.names.is_none())
    }

    /// Candidates are picked by collection id only when neither a name nor a
    /// version already picked them.
    pub fn applies_collection_id(&self) -> (res: bool)
        ensures
            res == self.applies_collection_id_spec(),
    {
        (self.get_inactive || self.names.is_none()) && self.version_id.is_none()
    }

    /// Whether this collection version is selected.
    pub fn selects(&self, collection: &CollectionVersion) -> (res: bool)
        ensures
            res == self.selects_spec(collection),
    {
        let version_matches = match &self.version_id {
            None => true,
            Some(id) => collection.version_id == *id,
        };
        let name_matches = match &self.names {
            None => true,
            Some(names) => {
                let mut found = false;
                let mut i: usize = 0;
                while i < names.len()
                    invariant
                        0 <= i <= names.len(),
                        found == exists|j: int| 0 <= j < i && #[trigger] names@[j]@ == collection.name@,
                    decreases names.len() - i,
                {
                    if names[i] == collection.name {
                        found = true;
                    }
                    i += 1;
                }
                found
            },
        };
        let collection_matches = !self.applies_collection_id() || match &self.collection_id {
            None => true,
            Some(id) => collection.collection_id == *id,
        };
        let visible = self.get_inactive || collection.is_active || self.resolves_by_version_lookup();
        version_matches && name_matches && collection_matches && visible
    }
}

/// The names of a selector, as values.
pub open spec fn names_view(names: Option<Vec<String>>) -> Option<Seq<Seq<char>>> {
    match names {
        Some(v) => Some(views(v@)),
        None => None,
    }
}

fn same_names(a: &Option<Vec<String>>, b: &Option<Vec<String>>) -> (res: bool)
    ensures
        res == (names_view(*a) == names_view(*b)),
{
    let x = match a {
        None => {
            return b.is_none();
        },
        Some(x) => x,
    };
    let y = match b {
        None => {
            return false;
        },
        Some(y) => y,
    };
    if x.len() != y.len() {
        assert(views(x@).len() != views(y@).len());
        return false;
    }
    let mut i: usize = 0;
    while i < x.len()
        invariant
            0 <= i <= x@.len(),
            x@.len() == y@.len(),
            names_view(*a) == Some(views(x@)),
            names_view(*b) == Some(views(y@)),
            forall|k: int| 0 <= k < i ==> x@[k]@ == y@[k]@,
        decreases x.len() - i,
    {
        let differ = x[i] != y[i];
        if differ {
            assert(views(x@)[i as int] != views(y@)[i as int]);
            return false;
        }
        i += 1;
    }
    assert(views(x@) =~= views(y@));
    true
}

fn same_text(a: &Option<String>, b: &Option<String>) -> (res: bool)
    ensures
        res == (opt_view(*a) == opt_view(*b)),
{
    match (a, b) {
        (None, None) => true,
        (Some(x), Some(y)) => *x == *y,
        _ => false,
    }
}

impl PartialEq for CollectionSelector {
    fn eq(&self, other: &Self) -> (res: bool) {
        same_names(&self.names, &other.names) && same_text(&self.version_id, &other.version_id)
            && same_text(&self.collection_id, &other.collection_id) && self.get_inactive == other.get_inactive
    }
}

impl vstd::std_specs::cmp::PartialEqSpecImpl for CollectionSelector {
    open spec fn obeys_eq_spec() -> bool {
        true
    }

    open spec fn eq_spec(&self, other: &Self) -> bool {
        &&& names_view(self.names) == names_view(other.names)
        &&& opt_view(self.version_id) == opt_view(other.version_id)
        &&& opt_view(self.collection_id) == opt_view(other.collection_id)
        &&& self.get_inactive == other.get_inactive
    }
}

impl Default for CollectionSelector {
    /// Selects everything active (as `all`).
    fn default() -> (res: Self)
        ensures
            res.names is None,
            res.version_id is None,
            res.collection_id is None,
            !res.get_inactive,
    {
        CollectionSelector::all()
    }
}


/// A collection id narrows a selection made by neither name nor version:
/// every collection selected then has that collection id.
pub proof fn law_collection_id_narrows(sel: CollectionSelector, c: CollectionVersion)
    requires
        sel.names is None,
        sel.version_id is None,
        sel.collection_id is Some,
        sel.selects_spec(&c),
    ensures
        c.collection_id@ == sel.collection_id->0@,
{
}


/// What every selected collection satisfies: it has the version id asked
/// for, a name among the names asked for, and it is active unless inactive
/// versions were asked for or it was asked for by version id.
pub proof fn law_selection_respects_filters(sel: CollectionSelector, c: CollectionVersion)
    requires
        sel.selects_spec(&c),
    ensures
        sel.version_id is Some ==> c.version_id@ == sel.version_id->0@,
        sel.names is Some ==> exists|i: int| 0 <= i < sel.names->0@.len() && #[trigger] sel.names->0@[i]@ == c.name@,
        !sel.get_inactive && sel.version_id is None ==> c.is_active,
{
}

} // verus!
