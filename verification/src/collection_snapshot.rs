//! An immutable snapshot of the collection definitions at one point in time,
//! which a transaction reads throughout its life while collections are
//! created or dropped around it. Clones share one allocation.

use vstd::prelude::*;
use std::sync::Arc;
use crate::schema::CollectionVersion;
use crate::text::{str_eq, views};
use crate::outside::same_allocation;

verus! {

/// Whether no two entries of `s` have the same name.
pub open spec fn names_distinct(s: Seq<(String, CollectionVersion)>) -> bool {
    forall|i: int, j: int| 0 <= i < j < s.len() ==> s[i].0@ != s[j].0@
}

/// The map from name to collection that the entries `s` make, a later
/// entry of a name replacing an earlier one.
pub open spec fn map_of(s: Seq<(String, CollectionVersion)>) -> Map<Seq<char>, CollectionVersion>
    decreases s.len(),
{
    if s.len() == 0 {
        Map::empty()
    } else {
        map_of(s.drop_last()).insert(s.last().0@, s.last().1)
    }
}

/// The names of the entries `s`, in order.
pub open spec fn entry_names(s: Seq<(String, CollectionVersion)>) -> Seq<Seq<char>> {
    s.map_values(|e: (String, CollectionVersion)| e.0@)
}

/// The map of entries holds exactly their names.
pub proof fn lemma_map_of_dom(s: Seq<(String, CollectionVersion)>)
    ensures
        forall|x: Seq<char>| map_of(s).dom().contains(x) <==> entry_names(s).contains(x),
    decreases s.len(),
{
    if s.len() > 0 {
        let p = s.drop_last();
        lemma_map_of_dom(p);
        assert forall|x: Seq<char>| map_of(s).dom().contains(x) implies entry_names(s).contains(x) by {
            if x == s.last().0@ {
                assert(entry_names(s)[s.len() - 1] == x);
            } else {
                assert(map_of(p).dom().contains(x));
                assert(entry_names(p).contains(x));
                let k = choose|k: int| 0 <= k < entry_names(p).len() && entry_names(p)[k] == x;
                assert(entry_names(p)[k] == p[k].0@);
                assert(p[k] == s[k]);
                assert(entry_names(s)[k] == s[k].0@);
            }
        }
        assert forall|x: Seq<char>| entry_names(s).contains(x) implies map_of(s).dom().contains(x) by {
            if x != s.last().0@ {
                let k = choose|k: int| 0 <= k < entry_names(s).len() && entry_names(s)[k] == x;
                assert(entry_names(s)[k] == s[k].0@);
                assert(k < s.len() - 1);
                assert(p[k] == s[k]);
                assert(entry_names(p)[k] == p[k].0@);
                assert(entry_names(p).contains(x));
            }
        }
    }
}

/// In the map of entries with distinct names each entry keeps its
/// collection, and there are as many names as entries.
pub proof fn lemma_map_of(s: Seq<(String, CollectionVersion)>)
    requires
        names_distinct(s),
    ensures
        forall|i: int| 0 <= i < s.len() ==> map_of(s).dom().contains(#[trigger] s[i].0@) && map_of(s)[s[i].0@] == s[i].1,
        map_of(s).dom().len() == s.len(),
        entry_names(s).no_duplicates(),
    decreases s.len(),
{
    lemma_map_of_dom(s);
    assert forall|a: int, b: int| 0 <= a < entry_names(s).len() && 0 <= b < entry_names(s).len() && a != b
        implies entry_names(s)[a] != entry_names(s)[b] by {
        if a < b {
            assert(s[a].0@ != s[b].0@);
        } else {
            assert(s[b].0@ != s[a].0@);
        }
    }
    assert(map_of(s).dom() =~= entry_names(s).to_set());
    entry_names(s).unique_seq_to_set();
    if s.len() > 0 {
        let p = s.drop_last();
        assert forall|i: int, j: int| 0 <= i < j < p.len() implies p[i].0@ != p[j].0@ by {
            assert(p[i] == s[i] && p[j] == s[j]);
        }
        lemma_map_of(p);
        assert forall|i: int| 0 <= i < s.len() implies map_of(s).dom().contains(#[trigger] s[i].0@) && map_of(s)[s[i].0@] == s[i].1 by {
            assert(entry_names(s)[i] == s[i].0@);
            if i < s.len() - 1 {
                assert(s[i] == p[i]);
                assert(s[i].0@ != s[s.len() - 1].0@);
            }
        }
    }
}

/// A snapshot of collection definitions, by name.
#[derive(Debug, Clone)]
pub struct CollectionSnapshot {
    collections: Arc<Vec<(String, CollectionVersion)>>,
}

impl View for CollectionSnapshot {
    type V = Map<Seq<char>, CollectionVersion>;

    closed spec fn view(&self) -> Map<Seq<char>, CollectionVersion> {
        map_of((*self.collections)@)
    }
}

impl CollectionSnapshot {
    /// Whether no two collections of the snapshot share a name (every
    /// snapshot made by `new` is so).
    pub closed spec fn wf(&self) -> bool {
        names_distinct((*self.collections)@)
    }

    /// Whether both snapshots share one allocation (a clone does); when
    /// they do, they hold the same collections.
    pub fn ptr_eq(&self, other: &Self) -> (res: bool)
        ensures
            res ==> self@ == other@,
    {
        same_allocation(&self.collections, &other.collections)
    }

    /// A snapshot of the collections `collections`, by name (no name may
    /// appear twice).
    pub fn new(collections: Vec<(String, CollectionVersion)>) -> (res: Self)
        requires
            names_distinct(collections@),
        ensures
            res.wf(),
            res@ == map_of(collections@),
    {
        CollectionSnapshot { collections: Arc::new(collections) }
    }

    /// The collection named `name`.
    pub fn get(&self, name: &str) -> (res: Option<&CollectionVersion>)
        requires
            self.wf(),
        ensures
            match res {
                Some(c) => self@.dom().contains(name@) && *c == self@[name@],
                None => !self@.dom().contains(name@),
            },
    {
        proof {
            lemma_map_of((*self.collections)@);
        }
        let v: &Vec<(String, CollectionVersion)> = &*self.collections;
        let mut i: usize = 0;
        while i < v.len()
            invariant
                0 <= i <= v@.len(),
                v@ == (*self.collections)@,
                names_distinct(v@),
                forall|k: int| 0 <= k < i ==> v@[k].0@ != name@,
            decreases v.len() - i,
        {
            if str_eq(v[i].0.as_str(), name) {
                proof {
                    lemma_map_of(v@);
                }
                assert(map_of(v@)[v@[i as int].0@] == v@[i as int].1);
                return Some(&v[i].1);
            }
            i += 1;
        }
        proof {
            lemma_map_of_dom(v@);
            if self@.dom().contains(name@) {
                assert(entry_names(v@).contains(name@));
                let k = choose|k: int| 0 <= k < entry_names(v@).len() && entry_names(v@)[k] == name@;
                assert(v@[k].0@ == name@);
            }
        }
        None
    }

    /// Whether the snapshot has a collection named `name`.
    pub fn contains(&self, name: &str) -> (res: bool)
        requires
            self.wf(),
        ensures
            res == self@.dom().contains(name@),
    {
        self.get(name).is_some()
    }

    /// The number of collections in the snapshot.
    pub fn len(&self) -> (res: usize)
        requires
            self.wf(),
        ensures
            res == self@.dom().len(),
    {
        proof {
            lemma_map_of((*self.collections)@);
        }
        self.collections.len()
    }

    /// Whether the snapshot has no collection.
    pub fn is_empty(&self) -> (res: bool)
        requires
            self.wf(),
        ensures
            res == (self@.dom().len() == 0),
    {
        self.len() == 0
    }

    /// The names of the collections, each once.
    pub fn names(&self) -> (res: Vec<String>)
        requires
            self.wf(),
        ensures
            views(res@).no_duplicates(),
            views(res@).to_set() == self@.dom(),
    {
        proof {
            lemma_map_of((*self.collections)@);
        }
        let v: &Vec<(String, CollectionVersion)> = &*self.collections;
        let mut out: Vec<String> = Vec::new();
        let mut i: usize = 0;
        while i < v.len()
            invariant
                0 <= i <= v@.len(),
                v@ == (*self.collections)@,
                names_distinct(v@),
                views(out@) == entry_names(v@).take(i as int),
            decreases v.len() - i,
        {
            let ghost before = out@;
            out.push(v[i].0.clone());
            proof {
                assert(views(out@) =~= views(before).push(v@[i as int].0@));
                assert(entry_names(v@).take(i + 1) =~= entry_names(v@).take(i as int).push(v@[i as int].0@));
            }
            i += 1;
        }
        proof {
            assert(entry_names(v@).take(v@.len() as int) =~= entry_names(v@));
            lemma_map_of_dom(v@);
            assert(views(out@).to_set() =~= self@.dom());
            assert forall|a: int, b: int| 0 <= a < views(out@).len() && 0 <= b < views(out@).len() && a != b
                implies views(out@)[a] != views(out@)[b] by {
                if a < b {
                    assert(v@[a].0@ != v@[b].0@);
                } else {
                    assert(v@[b].0@ != v@[a].0@);
                }
            }
        }
        out
    }

    /// The collections with their names, each once.
    pub fn iter(&self) -> (res: &[(String, CollectionVersion)])
        requires
            self.wf(),
        ensures
            names_distinct(res@),
            map_of(res@) == self@,
    {
                (*self.collections).as_slice()
    }
}

} // verus!
