//! Decisions of the document read and write paths: paging an index scan,
//! choosing how an `IN` condition is looked up, keeping each document once,
//! and which counter fields a write records.

use vstd::prelude::*;
use crate::schema::FieldDescription;
use crate::text::{contains_name, views};

verus! {

/// Collects one page of an index scan as the entries arrive: the first
/// `offset` entries are skipped, then entries are kept until `limit` of
/// them are.
#[derive(Debug)]
pub struct PageCollector {
    pub limit: Option<u64>,
    pub offset: u64,
    pub skipped: u64,
    pub entries: Vec<String>,
}

impl PageCollector {
    /// A collector that has seen nothing yet.
    pub fn new(limit: Option<u64>, offset: u64) -> (res: Self)
        ensures
            res.limit == limit,
            res.offset == offset,
            res.skipped == 0,
            res.entries@.len() == 0,
    {
        PageCollector { limit, offset, skipped: 0, entries: Vec::new() }
    }

    /// Takes the next entry of the scan; answers whether the scan should go
    /// on.
    pub fn offer(&mut self, doc_id: String) -> (more: bool)
        requires
            old(self).skipped <= old(self).offset,
        ensures
            final(self).limit == old(self).limit,
            final(self).offset == old(self).offset,
            old(self).skipped < old(self).offset ==> {
                &&& final(self).skipped == old(self).skipped + 1
                &&& final(self).entries@ == old(self).entries@
                &&& more
            },
            old(self).skipped >= old(self).offset ==> {
                &&& final(self).skipped == old(self).skipped
                &&& final(self).entries@ == old(self).entries@.push(doc_id)
                &&& more == !(old(self).limit matches Some(l) && final(self).entries@.len() >= l)
            },
            final(self).skipped <= final(self).offset,
    {
        if self.skipped < self.offset {
            self.skipped = self.skipped + 1;
            return true;
        }
        self.entries.push(doc_id);
        match self.limit {
            Some(l) => (self.entries.len() as u64) < l,
            None => true,
        }
    }
}

/// How the values of an `IN` condition are looked up in an index.
#[derive(PartialEq, Eq, Structural, Clone, Copy, Debug)]
pub enum InScanStrategy {
    /// Each value, followed by the equality values of the other index
    /// fields, is an exact key.
    FullKey,
    /// Each value is a prefix of the keys of a composite index.
    Prefix,
    /// Each value is an exact key of a single-field index.
    Exact,
}

/// The lookup for an `IN` condition on an index of `index_fields` fields,
/// with `suffix_values` equality values for the fields after the first.
pub fn in_scan_strategy(index_fields: usize, suffix_values: usize) -> (res: InScanStrategy)
    requires
        suffix_values > 0 ==> index_fields > 0,
    ensures
        res == if suffix_values > 0 && suffix_values == index_fields - 1 {
            InScanStrategy::FullKey
        } else if index_fields > 1 {
            InScanStrategy::Prefix
        } else {
            InScanStrategy::Exact
        },
{
    if suffix_values > 0 && suffix_values == index_fields - 1 {
        InScanStrategy::FullKey
    } else if index_fields > 1 {
        InScanStrategy::Prefix
    } else {
        InScanStrategy::Exact
    }
}

/// The strings of `s` without repeats, each where it first occurs.
pub open spec fn first_occurrences(s: Seq<Seq<char>>) -> Seq<Seq<char>>
    decreases s.len(),
{
    if s.len() == 0 {
        s
    } else {
        let rest = first_occurrences(s.drop_last());
        if rest.contains(s.last()) { rest } else { rest.push(s.last()) }
    }
}


/// The document IDs of a scan, each once, in the order they were first
/// found (an array index can find a document once per element).
pub fn dedup_preserving_order(ids: Vec<String>) -> (res: Vec<String>)
    ensures
        views(res@) == first_occurrences(views(ids@)),
{
    let mut out: Vec<String> = Vec::new();
    let mut i: usize = 0;
    assert(views(ids@).take(0) =~= Seq::<Seq<char>>::empty());
    assert(views(out@) =~= Seq::<Seq<char>>::empty());
    while i < ids.len()
        invariant
            0 <= i <= ids@.len(),
            views(out@) == first_occurrences(views(ids@).take(i as int)),
        decreases ids.len() - i,
    {
        let ghost t = views(ids@).take(i + 1);
        assert(t.drop_last() =~= views(ids@).take(i as int));
        assert(t.last() == ids@[i as int]@);
        if !contains_name(&out, ids[i].as_str()) {
            let ghost before = views(out@);
            out.push(ids[i].clone());
            assert(views(out@) =~= before.push(ids@[i as int]@));
        }
        i += 1;
    }
    assert(views(ids@).take(ids@.len() as int) =~= views(ids@));
    out
}

/// The fields among the first `n` that a write records a counter
/// operation for: counter fields for which `present` holds, in order.
pub open spec fn counter_fields(fields: Seq<FieldDescription>, present: Seq<bool>, n: int) -> Seq<int>
    decreases n,
{
    if n <= 0 {
        Seq::empty()
    } else if fields[n - 1].crdt_type.is_counter_spec() && present[n - 1] {
        counter_fields(fields, present, n - 1).push(n - 1)
    } else {
        counter_fields(fields, present, n - 1)
    }
}

/// The counter fields a write records an operation for: those of
/// `fields` that are counters and carry a value (`present`, one flag per
/// field), in order.
pub fn counter_fields_to_record(fields: &Vec<FieldDescription>, present: &Vec<bool>) -> (res: Vec<usize>)
    requires
        present@.len() == fields@.len(),
    ensures
        res@.map_values(|i: usize| i as int) == counter_fields(fields@, present@, fields@.len() as int),
{
    let mut out: Vec<usize> = Vec::new();
    let mut i: usize = 0;
    assert(out@.map_values(|k: usize| k as int) =~= Seq::<int>::empty());
    while i < fields.len()
        invariant
            0 <= i <= fields@.len(),
            present@.len() == fields@.len(),
            out@.map_values(|k: usize| k as int) == counter_fields(fields@, present@, i as int),
        decreases fields.len() - i,
    {
        if fields[i].crdt_type.is_counter() && present[i] {
            let ghost before = out@.map_values(|k: usize| k as int);
            out.push(i);
            assert(out@.map_values(|k: usize| k as int) =~= before.push(i as int));
        }
        i += 1;
    }
    out
}

/// Whether an update must read the committed document before it writes:
/// when some counter field carries a delta (`has_delta`, one flag per
/// field).
pub fn needs_committed_read(fields: &Vec<FieldDescription>, has_delta: &Vec<bool>) -> (res: bool)
    requires
        has_delta@.len() == fields@.len(),
    ensures
        res == exists|i: int| 0 <= i < fields@.len() && fields@[i].crdt_type.is_counter_spec() && #[trigger] has_delta@[i],
{
    let mut i: usize = 0;
    while i < fields.len()
        invariant
            0 <= i <= fields@.len(),
            has_delta@.len() == fields@.len(),
            forall|k: int| 0 <= k < i ==> !(fields@[k].crdt_type.is_counter_spec() && #[trigger] has_delta@[k]),
        decreases fields.len() - i,
    {
        if fields[i].crdt_type.is_counter() && has_delta[i] {
            return true;
        }
        i += 1;
    }
    false
}

} // verus!
