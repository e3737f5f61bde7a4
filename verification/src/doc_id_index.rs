//! The document-ID index: the bidirectional mapping between node-local
//! document short IDs and public DocIDs (with aliases), and the set of
//! documents that own each block. Lookups give the latest entry written for
//! a key; removals remove every entry for it.

use vstd::prelude::*;
use vstd::string::StringExecFns;
use crate::error::Error;
use crate::commits::{Block, CrdtDelta};
use crate::text::{cat3, decimal, listed, u64_to_decimal, lex_lt, opt_view, sorted_distinct, str_eq, views};
use vstd::seq_lib::lemma_seq_contains_after_push;

verus! {

/// Where a document lives: its collection's short ID and its own short ID.
#[derive(PartialEq, Eq, Structural, Clone, Copy, Debug)]
pub struct DocRef {
    pub collection_short_id: u32,
    pub doc_short_id: u64,
}

/// The document-ID index of one node.
#[derive(Debug)]
pub struct DocIdIndex {
    /// Short ID -> primary DocID.
    pub primary: Vec<(u64, String)>,
    /// DocID (primary or alias) -> where the document lives.
    pub refs: Vec<(String, DocRef)>,
    /// (short ID, DocID) pairs: every DocID a short ID is known under.
    pub aliases: Vec<(u64, String)>,
    /// (block CID, DocID) pairs: the documents that own each block.
    pub block_owners: Vec<(String, String)>,
}

/// The value last written for short ID `k` in `v`.
pub open spec fn lookup_short(v: Seq<(u64, String)>, k: u64) -> Option<Seq<char>>
    decreases v.len(),
{
    if v.len() == 0 {
        None
    } else if v.last().0 == k {
        Some(v.last().1@)
    } else {
        lookup_short(v.drop_last(), k)
    }
}

/// The reference last written for DocID `k` in `v`.
pub open spec fn lookup_ref(v: Seq<(String, DocRef)>, k: Seq<char>) -> Option<DocRef>
    decreases v.len(),
{
    if v.len() == 0 {
        None
    } else if v.last().0@ == k {
        Some(v.last().1)
    } else {
        lookup_ref(v.drop_last(), k)
    }
}

/// Whether the pair (`s`, `d`) is in `v`.
pub open spec fn has_pair_short(v: Seq<(u64, String)>, s: u64, d: Seq<char>) -> bool
    decreases v.len(),
{
    if v.len() == 0 {
        false
    } else {
        (v.last().0 == s && v.last().1@ == d) || has_pair_short(v.drop_last(), s, d)
    }
}

/// Whether the pair (`b`, `d`) is in `v`.
pub open spec fn has_pair_str(v: Seq<(String, String)>, b: Seq<char>, d: Seq<char>) -> bool
    decreases v.len(),
{
    if v.len() == 0 {
        false
    } else {
        (v.last().0@ == b && v.last().1@ == d) || has_pair_str(v.drop_last(), b, d)
    }
}

impl DocIdIndex {
    /// The primary DocID of short ID `s`.
    pub open spec fn primary_of(&self, s: u64) -> Option<Seq<char>> {
        lookup_short(self.primary@, s)
    }

    /// Where the document known as `d` lives.
    pub open spec fn ref_of(&self, d: Seq<char>) -> Option<DocRef> {
        lookup_ref(self.refs@, d)
    }

    /// Whether `d` is one of the DocIDs of short ID `s`.
    pub open spec fn has_alias(&self, s: u64, d: Seq<char>) -> bool {
        has_pair_short(self.aliases@, s, d)
    }

    /// Whether document `d` owns block `b`.
    pub open spec fn owns(&self, b: Seq<char>, d: Seq<char>) -> bool {
        has_pair_str(self.block_owners@, b, d)
    }

    /// Whether `self` and `other` answer every lookup alike.
    pub open spec fn same_answers(&self, other: &DocIdIndex) -> bool {
        &&& forall|s: u64| self.primary_of(s) == other.primary_of(s)
        &&& forall|d: Seq<char>| self.ref_of(d) == other.ref_of(d)
        &&& forall|s: u64, d: Seq<char>| self.has_alias(s, d) == other.has_alias(s, d)
        &&& forall|b: Seq<char>, d: Seq<char>| self.owns(b, d) == other.owns(b, d)
    }

    /// An empty index.
    pub fn new() -> (res: Self)
        ensures
            forall|s: u64| res.primary_of(s) is None,
            forall|d: Seq<char>| res.ref_of(d) is None,
            forall|s: u64, d: Seq<char>| !res.has_alias(s, d),
            forall|b: Seq<char>, d: Seq<char>| !res.owns(b, d),
    {
        DocIdIndex { primary: Vec::new(), refs: Vec::new(), aliases: Vec::new(), block_owners: Vec::new() }
    }
}

fn without_short(v: &Vec<(u64, String)>, s: u64) -> (res: Vec<(u64, String)>)
    ensures
        forall|k: u64| lookup_short(res@, k) == if k == s { None } else { lookup_short(v@, k) },
        forall|k: u64, d: Seq<char>| has_pair_short(res@, k, d) == (k != s && has_pair_short(v@, k, d)),
{
    let mut out: Vec<(u64, String)> = Vec::new();
    let mut i: usize = 0;
    assert(v@.take(0) =~= Seq::<(u64, String)>::empty());
    while i < v.len()
        invariant
            0 <= i <= v@.len(),
            forall|k: u64| lookup_short(out@, k) == if k == s { None } else { lookup_short(v@.take(i as int), k) },
            forall|k: u64, d: Seq<char>| has_pair_short(out@, k, d) == (k != s && has_pair_short(v@.take(i as int), k, d)),
        decreases v.len() - i,
    {
        let ghost before = out@;
        let ghost t1 = v@.take(i + 1);
        assert(t1.drop_last() =~= v@.take(i as int));
        assert(t1.last() == v@[i as int]);
        if v[i].0 != s {
            out.push((v[i].0, v[i].1.clone()));
            assert(out@.drop_last() =~= before);
        }
        proof {
            assert forall|k: u64| lookup_short(out@, k) == if k == s { None } else { lookup_short(t1, k) } by {
                assert(lookup_short(before, k) == if k == s { None } else { lookup_short(v@.take(i as int), k) });
            }
            assert forall|k: u64, d: Seq<char>| #[trigger] has_pair_short(out@, k, d) == (k != s && has_pair_short(v@.take(i + 1), k, d)) by {
                assert(has_pair_short(before, k, d) == (k != s && has_pair_short(v@.take(i as int), k, d)));
                assert(has_pair_short(t1, k, d) == ((t1.last().0 == k && t1.last().1@ == d) || has_pair_short(t1.drop_last(), k, d)));
            }
        }
        i += 1;
    }
    assert(v@.take(v@.len() as int) =~= v@);
    out
}

fn without_refs(v: &Vec<(String, DocRef)>, keys: &Vec<String>) -> (res: Vec<(String, DocRef)>)
    ensures
        forall|k: Seq<char>| lookup_ref(res@, k) == if views(keys@).contains(k) { None } else { lookup_ref(v@, k) },
{
    let mut out: Vec<(String, DocRef)> = Vec::new();
    let mut i: usize = 0;
    assert(v@.take(0) =~= Seq::<(String, DocRef)>::empty());
    while i < v.len()
        invariant
            0 <= i <= v@.len(),
            forall|k: Seq<char>| lookup_ref(out@, k) == if views(keys@).contains(k) { None } else { lookup_ref(v@.take(i as int), k) },
        decreases v.len() - i,
    {
        let ghost before = out@;
        assert(v@.take(i + 1).drop_last() =~= v@.take(i as int));
        assert(v@.take(i + 1).last() == v@[i as int]);
        if !contains_key(keys, v[i].0.as_str()) {
            out.push((v[i].0.clone(), v[i].1));
            assert(out@.drop_last() =~= before);
        }
        proof {
            assert forall|k: Seq<char>| lookup_ref(out@, k) == if views(keys@).contains(k) { None } else { lookup_ref(v@.take(i + 1), k) } by {
                assert(lookup_ref(before, k) == if views(keys@).contains(k) { None } else { lookup_ref(v@.take(i as int), k) });
            }
        }
        i += 1;
    }
    assert(v@.take(v@.len() as int) =~= v@);
    out
}

fn contains_key(keys: &Vec<String>, k: &str) -> (res: bool)
    ensures
        res == views(keys@).contains(k@),
{
    let mut i: usize = 0;
    while i < keys.len()
        invariant
            0 <= i <= keys@.len(),
            forall|j: int| 0 <= j < i ==> keys@[j]@ != k@,
        decreases keys.len() - i,
    {
        if str_eq(keys[i].as_str(), k) {
            assert(views(keys@)[i as int] == k@);
            return true;
        }
        i += 1;
    }
    assert forall|j: int| 0 <= j < views(keys@).len() implies views(keys@)[j] != k@ by {
        assert(views(keys@)[j] == keys@[j]@);
    }
    false
}

fn has_pair_short_exec(v: &Vec<(u64, String)>, s: u64, d: &str) -> (res: bool)
    ensures
        res == has_pair_short(v@, s, d@),
{
    let mut i: usize = v.len();
    assert(v@.take(v@.len() as int) =~= v@);
    while i > 0
        invariant
            0 <= i <= v@.len(),
            has_pair_short(v@, s, d@) == has_pair_short(v@.take(i as int), s, d@),
        decreases i,
    {
        assert(v@.take(i as int).drop_last() =~= v@.take(i - 1));
        assert(v@.take(i as int).last() == v@[i - 1]);
        if v[i - 1].0 == s && str_eq(v[i - 1].1.as_str(), d) {
            return true;
        }
        i -= 1;
    }
    assert(v@.take(0) =~= Seq::<(u64, String)>::empty());
    false
}

fn has_pair_str_exec(v: &Vec<(String, String)>, b: &str, d: &str) -> (res: bool)
    ensures
        res == has_pair_str(v@, b@, d@),
{
    let mut i: usize = v.len();
    assert(v@.take(v@.len() as int) =~= v@);
    while i > 0
        invariant
            0 <= i <= v@.len(),
            has_pair_str(v@, b@, d@) == has_pair_str(v@.take(i as int), b@, d@),
        decreases i,
    {
        assert(v@.take(i as int).drop_last() =~= v@.take(i - 1));
        assert(v@.take(i as int).last() == v@[i - 1]);
        if str_eq(v[i - 1].0.as_str(), b) && str_eq(v[i - 1].1.as_str(), d) {
            return true;
        }
        i -= 1;
    }
    assert(v@.take(0) =~= Seq::<(String, String)>::empty());
    false
}


fn without_pair_str(v: &Vec<(String, String)>, b: &str, d: &str) -> (res: Vec<(String, String)>)
    ensures
        forall|x: Seq<char>, y: Seq<char>| #[trigger] has_pair_str(res@, x, y) == (!(x == b@ && y == d@) && has_pair_str(v@, x, y)),
{
    let mut out: Vec<(String, String)> = Vec::new();
    let mut i: usize = 0;
    assert(v@.take(0) =~= Seq::<(String, String)>::empty());
    while i < v.len()
        invariant
            0 <= i <= v@.len(),
            forall|x: Seq<char>, y: Seq<char>| #[trigger] has_pair_str(out@, x, y) == (!(x == b@ && y == d@) && has_pair_str(v@.take(i as int), x, y)),
        decreases v.len() - i,
    {
        let ghost before = out@;
        let ghost t1 = v@.take(i + 1);
        assert(t1.drop_last() =~= v@.take(i as int));
        assert(t1.last() == v@[i as int]);
        if !(str_eq(v[i].0.as_str(), b) && str_eq(v[i].1.as_str(), d)) {
            out.push((v[i].0.clone(), v[i].1.clone()));
            assert(out@.drop_last() =~= before);
        }
        proof {
            assert forall|x: Seq<char>, y: Seq<char>| #[trigger] has_pair_str(out@, x, y) == (!(x == b@ && y == d@) && has_pair_str(v@.take(i + 1), x, y)) by {
                assert(has_pair_str(before, x, y) == (!(x == b@ && y == d@) && has_pair_str(v@.take(i as int), x, y)));
                assert(has_pair_str(t1, x, y) == ((t1.last().0@ == x && t1.last().1@ == y) || has_pair_str(t1.drop_last(), x, y)));
            }
        }
        i += 1;
    }
    assert(v@.take(v@.len() as int) =~= v@);
    out
}

/// The DocIDs that the short IDs of `shorts` resolve to, in order, skipping
/// those with no mapping.
pub open spec fn resolved(ix: DocIdIndex, shorts: Seq<u64>) -> Seq<Seq<char>>
    decreases shorts.len(),
{
    if shorts.len() == 0 {
        Seq::empty()
    } else {
        match ix.primary_of(shorts.last()) {
            Some(d) => resolved(ix, shorts.drop_last()).push(d),
            None => resolved(ix, shorts.drop_last()),
        }
    }
}

/// Whether a delta belongs to a document (rather than to a collection or a
/// definition).
pub open spec fn is_document_delta(d: CrdtDelta) -> bool {
    d is Lww || d is Counter || d is Composite
}

/// Whether `block` is the genesis composite commit of a document: no heads,
/// priority 1.
pub open spec fn is_genesis_block(block: Block) -> bool {
    (block.heads matches Some(h) ==> h@.len() == 0) && block.delta.priority_spec() == 1 && block.delta is Composite
}

/// How recording the mapping (`c`, `s`) <-> `d` changes the index: `s`
/// resolves to `d`; when `c`, `s` and `d` are all set, `d` resolves to where
/// the document lives and is one of `s`'s DocIDs; nothing else changes.
pub open spec fn mapping_recorded(before: DocIdIndex, after: DocIdIndex, c: u32, s: u64, d: Seq<char>) -> bool {
    &&& forall|k: u64| after.primary_of(k) == if k == s { Some(d) } else { before.primary_of(k) }
    &&& c == 0 || s == 0 || d.len() == 0 ==> {
        &&& forall|x: Seq<char>| after.ref_of(x) == before.ref_of(x)
        &&& forall|k: u64, x: Seq<char>| after.has_alias(k, x) == before.has_alias(k, x)
    }
    &&& !(c == 0 || s == 0 || d.len() == 0) ==> {
        &&& forall|x: Seq<char>| after.ref_of(x) == if x == d {
            Some(DocRef { collection_short_id: c, doc_short_id: s })
        } else {
            before.ref_of(x)
        }
        &&& forall|k: u64, x: Seq<char>| after.has_alias(k, x) == ((k == s && x == d) || before.has_alias(k, x))
    }
    &&& forall|b: Seq<char>, x: Seq<char>| after.owns(b, x) == before.owns(b, x)
}

/// How registering alias `x` for the document at (`c`, `s`) changes the
/// index, and what it answers: nothing when any of them is unset; a refusal,
/// with nothing changed, when `x` already belongs to another document;
/// otherwise `x` resolves to the document and is one of `s`'s DocIDs.
pub open spec fn alias_recorded(
    before: DocIdIndex,
    after: DocIdIndex,
    c: u32,
    s: u64,
    x: Seq<char>,
    res: Result<(), Error>,
) -> bool {
    &&& forall|k: u64| after.primary_of(k) == before.primary_of(k)
    &&& forall|b: Seq<char>, d: Seq<char>| after.owns(b, d) == before.owns(b, d)
    &&& c == 0 || s == 0 || x.len() == 0 ==> (res is Ok && after.same_answers(&before))
    &&& !(c == 0 || s == 0 || x.len() == 0) ==> {
        let new_ref = DocRef { collection_short_id: c, doc_short_id: s };
        if before.ref_of(x) matches Some(r) && r != new_ref {
            &&& res matches Err(Error::InvalidDocument(m))
                && m@ == "document ID '"@ + x + "' already belongs to another document"@
            &&& after.same_answers(&before)
        } else {
            &&& res is Ok
            &&& forall|d: Seq<char>| after.ref_of(d) == if d == x { Some(new_ref) } else { before.ref_of(d) }
            &&& forall|k: u64, d: Seq<char>| after.has_alias(k, d) == ((k == s && d == x) || before.has_alias(k, d))
        }
    }
}

/// How recording that `d` owns block `b` changes the index: the pair joins
/// the ownership set (when both are set); nothing else changes.
pub open spec fn ownership_recorded(before: DocIdIndex, after: DocIdIndex, b: Seq<char>, d: Seq<char>) -> bool {
    &&& forall|k: u64| after.primary_of(k) == before.primary_of(k)
    &&& forall|x: Seq<char>| after.ref_of(x) == before.ref_of(x)
    &&& forall|k: u64, x: Seq<char>| after.has_alias(k, x) == before.has_alias(k, x)
    &&& forall|y: Seq<char>, x: Seq<char>| #[trigger] after.owns(y, x) == if b.len() == 0 || d.len() == 0 {
        before.owns(y, x)
    } else {
        (y == b && x == d) || before.owns(y, x)
    }
}

/// How deleting the mappings of short ID `s` changes the index: `s` no
/// longer resolves, none of its (non-empty) DocIDs resolves, and it has no
/// DocIDs left; nothing changes for short ID 0.
pub open spec fn mappings_deleted(before: DocIdIndex, after: DocIdIndex, s: u64) -> bool {
    &&& s == 0 ==> after.same_answers(&before)
    &&& s != 0 ==> {
        &&& forall|k: u64| after.primary_of(k) == if k == s { None } else { before.primary_of(k) }
        &&& forall|d: Seq<char>| after.ref_of(d) == if before.has_alias(s, d) && d.len() > 0 {
            None
        } else {
            before.ref_of(d)
        }
        &&& forall|k: u64, d: Seq<char>| after.has_alias(k, d) == (k != s && before.has_alias(k, d))
    }
    &&& forall|b: Seq<char>, d: Seq<char>| after.owns(b, d) == before.owns(b, d)
}

impl DocIdIndex {
    /// Records the mapping between short ID `doc_short_id` and DocID
    /// `doc_id`: the short ID always resolves to the DocID afterwards; when
    /// the collection short ID, the short ID and the DocID are all set, the
    /// DocID also resolves to where the document lives and is listed among
    /// the short ID's DocIDs.
    pub fn set_doc_id_mapping(&mut self, collection_short_id: u32, doc_short_id: u64, doc_id: &str)
        ensures
            mapping_recorded(*old(self), *final(self), collection_short_id, doc_short_id, doc_id@),
    {
        let mut primary = without_short(&self.primary, doc_short_id);
        let ghost p0 = primary@;
        primary.push((doc_short_id, String::from_str(doc_id)));
        assert(primary@.drop_last() =~= p0);
        self.primary = primary;
        assert forall|k: u64| lookup_short(self.primary@, k) == if k == doc_short_id { Some(doc_id@) } else { old(self).primary_of(k) } by {
            assert(lookup_short(p0, k) == if k == doc_short_id { None } else { old(self).primary_of(k) });
        }
        if collection_short_id == 0 || doc_short_id == 0 || doc_id.unicode_len() == 0 {
            return;
        }
        let keys = vec![String::from_str(doc_id)];
        assert(views(keys@) =~= seq![doc_id@]);
        let mut refs = without_refs(&self.refs, &keys);
        let ghost r0 = refs@;
        refs.push((String::from_str(doc_id), DocRef { collection_short_id, doc_short_id }));
        assert(refs@.drop_last() =~= r0);
        self.refs = refs;
        assert forall|d: Seq<char>| lookup_ref(self.refs@, d) == if d == doc_id@ {
            Some(DocRef { collection_short_id, doc_short_id })
        } else {
            old(self).ref_of(d)
        } by {
            assert(lookup_ref(r0, d) == if views(keys@).contains(d) { None } else { old(self).ref_of(d) });
            if d != doc_id@ {
                assert(!views(keys@).contains(d)) by {
                    if views(keys@).contains(d) {
                        let j = choose|j: int| 0 <= j < views(keys@).len() && views(keys@)[j] == d;
                    }
                }
            }
        }
        if !has_pair_short_exec(&self.aliases, doc_short_id, doc_id) {
            let ghost a0 = self.aliases@;
            self.aliases.push((doc_short_id, String::from_str(doc_id)));
            assert(self.aliases@.drop_last() =~= a0);
        }
    }

    /// The primary DocID of the document known as `doc_id`: `doc_id` itself
    /// when it is not in the index; refused when the index knows where the
    /// document lives but not its primary DocID.
    pub fn canonical_doc_id(&self, doc_id: &str) -> (res: Result<String, Error>)
        ensures
            match self.ref_of(doc_id@) {
                None => res matches Ok(d) && d@ == doc_id@,
                Some(r) => match self.primary_of(r.doc_short_id) {
                    Some(p) => res matches Ok(d) && d@ == p,
                    None => res matches Err(Error::InvalidDocument(m))
                        && m@ == "document short ID "@ + decimal(r.doc_short_id as nat) + " has no canonical DocID"@,
                },
            },
    {
        match self.get_doc_ref(doc_id) {
            None => Ok(String::from_str(doc_id)),
            Some(r) => match self.get_doc_id(r.doc_short_id) {
                Some(p) => Ok(p),
                None => {
                    let n = u64_to_decimal(r.doc_short_id);
                    Err(Error::InvalidDocument(cat3("document short ID ", n.as_str(), " has no canonical DocID")))
                },
            },
        }
    }

    /// Whether `doc_id` is listed among the DocIDs of `doc_short_id`.
    pub fn has_doc_id_alias(&self, doc_short_id: u64, doc_id: &str) -> (res: bool)
        ensures
            res == self.has_alias(doc_short_id, doc_id@),
    {
        has_pair_short_exec(&self.aliases, doc_short_id, doc_id)
    }

    /// The primary DocID of short ID `doc_short_id`.
    pub fn get_doc_id(&self, doc_short_id: u64) -> (res: Option<String>)
        ensures
            opt_view(res) == self.primary_of(doc_short_id),
    {
        let mut i = self.primary.len();
        assert(self.primary@.take(i as int) =~= self.primary@);
        while i > 0
            invariant
                i <= self.primary@.len(),
                self.primary_of(doc_short_id) == lookup_short(self.primary@.take(i as int), doc_short_id),
            decreases i,
        {
            assert(self.primary@.take(i as int).drop_last() =~= self.primary@.take(i - 1));
            assert(self.primary@.take(i as int).last() == self.primary@[i - 1]);
            if self.primary[i - 1].0 == doc_short_id {
                return Some(self.primary[i - 1].1.clone());
            }
            i -= 1;
        }
        None
    }

    /// The DocIDs of `doc_short_ids`, in order, skipping short IDs with no
    /// mapping.
    pub fn resolve_doc_ids(&self, doc_short_ids: &[u64]) -> (res: Vec<String>)
        ensures
            views(res@) == resolved(*self, doc_short_ids@),
    {
        let mut out: Vec<String> = Vec::new();
        let mut i: usize = 0;
        assert(views(out@) =~= resolved(*self, doc_short_ids@.take(0)));
        while i < doc_short_ids.len()
            invariant
                0 <= i <= doc_short_ids@.len(),
                views(out@) == resolved(*self, doc_short_ids@.take(i as int)),
            decreases doc_short_ids.len() - i,
        {
            assert(doc_short_ids@.take(i + 1).drop_last() =~= doc_short_ids@.take(i as int));
            assert(doc_short_ids@.take(i + 1).last() == doc_short_ids@[i as int]);
            match self.get_doc_id(doc_short_ids[i]) {
                Some(d) => {
                    let ghost before = views(out@);
                    out.push(d);
                    assert(views(out@) =~= before.push(out@[out@.len() - 1]@));
                },
                None => {},
            }
            i += 1;
        }
        assert(doc_short_ids@.take(doc_short_ids@.len() as int) =~= doc_short_ids@);
        out
    }

    /// Where the document known as `doc_id` lives.
    pub fn get_doc_ref(&self, doc_id: &str) -> (res: Option<DocRef>)
        ensures
            res == self.ref_of(doc_id@),
    {
        let mut i = self.refs.len();
        assert(self.refs@.take(i as int) =~= self.refs@);
        while i > 0
            invariant
                i <= self.refs@.len(),
                self.ref_of(doc_id@) == lookup_ref(self.refs@.take(i as int), doc_id@),
            decreases i,
        {
            assert(self.refs@.take(i as int).drop_last() =~= self.refs@.take(i - 1));
            assert(self.refs@.take(i as int).last() == self.refs@[i - 1]);
            if str_eq(self.refs[i - 1].0.as_str(), doc_id) {
                return Some(self.refs[i - 1].1);
            }
            i -= 1;
        }
        None
    }

    /// The short ID of document `doc_id` within collection
    /// `collection_short_id`: none when the document is unknown or lives in
    /// another collection.
    pub fn get_doc_short_id(&self, collection_short_id: u32, doc_id: &str) -> (res: Option<u64>)
        ensures
            res == match self.ref_of(doc_id@) {
                Some(r) => if r.collection_short_id == collection_short_id { Some(r.doc_short_id) } else { None },
                None => None,
            },
    {
        match self.get_doc_ref(doc_id) {
            Some(r) => if r.collection_short_id == collection_short_id {
                Some(r.doc_short_id)
            } else {
                None
            },
            None => None,
        }
    }

    /// Registers `alias_doc_id` as another DocID of the document at
    /// (`collection_short_id`, `doc_short_id`), without replacing its
    /// primary DocID. Refused when the alias already belongs to another
    /// document; nothing is done when any of the three is unset.
    pub fn set_doc_id_alias(&mut self, collection_short_id: u32, doc_short_id: u64, alias_doc_id: &str) -> (res: Result<(), Error>)
        ensures
            alias_recorded(*old(self), *final(self), collection_short_id, doc_short_id, alias_doc_id@, res),
    {
        if collection_short_id == 0 || doc_short_id == 0 || alias_doc_id.unicode_len() == 0 {
            return Ok(());
        }
        let new_ref = DocRef { collection_short_id, doc_short_id };
        match self.get_doc_ref(alias_doc_id) {
            Some(existing) => {
                if existing != new_ref {
                    return Err(Error::InvalidDocument(cat3(
                        "document ID '",
                        alias_doc_id,
                        "' already belongs to another document",
                    )));
                }
            },
            None => {},
        }
        let keys = vec![String::from_str(alias_doc_id)];
        assert(views(keys@) =~= seq![alias_doc_id@]);
        let mut refs = without_refs(&self.refs, &keys);
        let ghost r0 = refs@;
        refs.push((String::from_str(alias_doc_id), new_ref));
        assert(refs@.drop_last() =~= r0);
        self.refs = refs;
        assert forall|d: Seq<char>| lookup_ref(self.refs@, d) == if d == alias_doc_id@ { Some(new_ref) } else { old(self).ref_of(d) } by {
            assert(lookup_ref(r0, d) == if views(keys@).contains(d) { None } else { old(self).ref_of(d) });
            if d != alias_doc_id@ {
                assert(!views(keys@).contains(d)) by {
                    if views(keys@).contains(d) {
                        let j = choose|j: int| 0 <= j < views(keys@).len() && views(keys@)[j] == d;
                    }
                }
            }
        }
        if !has_pair_short_exec(&self.aliases, doc_short_id, alias_doc_id) {
            let ghost a0 = self.aliases@;
            self.aliases.push((doc_short_id, String::from_str(alias_doc_id)));
            assert(self.aliases@.drop_last() =~= a0);
        }
        Ok(())
    }

    /// Records that document `doc_id` owns block `block_cid` (ownership is a
    /// set: recording it again changes nothing); nothing is done when either
    /// is empty.
    pub fn set_block_doc_id_mapping(&mut self, block_cid: &str, doc_id: &str)
        ensures
            ownership_recorded(*old(self), *final(self), block_cid@, doc_id@),
    {
        if block_cid.unicode_len() == 0 || doc_id.unicode_len() == 0 {
            return;
        }
        if !has_pair_str_exec(&self.block_owners, block_cid, doc_id) {
            let ghost o0 = self.block_owners@;
            self.block_owners.push((String::from_str(block_cid), String::from_str(doc_id)));
            assert(self.block_owners@.drop_last() =~= o0);
        }
    }

    /// Every DocID that owns `block_cid`, each once, in ascending order.
    pub fn get_doc_ids_for_block(&self, block_cid: &str) -> (res: Vec<String>)
        ensures
            block_cid@.len() == 0 ==> res@.len() == 0,
            block_cid@.len() > 0 ==> {
                &&& forall|k: int| 0 <= k < res@.len() ==> self.owns(block_cid@, #[trigger] res@[k]@)
                &&& forall|d: Seq<char>| self.owns(block_cid@, d) ==> listed(res@, d)
            },
            forall|j: int, k: int| 0 <= j < k < res@.len() ==> lex_lt(res@[j]@, res@[k]@),
    {
        if block_cid.unicode_len() == 0 {
            return Vec::new();
        }
        let mut found: Vec<String> = Vec::new();
        let mut i: usize = 0;
        assert(self.block_owners@.take(0) =~= Seq::<(String, String)>::empty());
        while i < self.block_owners.len()
            invariant
                0 <= i <= self.block_owners@.len(),
                forall|k: int| 0 <= k < found@.len() ==> has_pair_str(self.block_owners@.take(i as int), block_cid@, #[trigger] found@[k]@),
                forall|d: Seq<char>| has_pair_str(self.block_owners@.take(i as int), block_cid@, d) ==> listed(found@, d),
            decreases self.block_owners.len() - i,
        {
            let ghost t1 = self.block_owners@.take(i + 1);
            let ghost before = found@;
            assert(t1.drop_last() =~= self.block_owners@.take(i as int));
            assert(t1.last() == self.block_owners@[i as int]);
            if str_eq(self.block_owners[i].0.as_str(), block_cid) {
                found.push(self.block_owners[i].1.clone());
            }
            proof {
                assert forall|k: int| 0 <= k < found@.len() implies has_pair_str(t1, block_cid@, #[trigger] found@[k]@) by {
                    if k < before.len() {
                        assert(found@[k] == before[k]);
                    }
                }
                assert forall|d: Seq<char>| has_pair_str(t1, block_cid@, d) implies listed(found@, d) by {
                    if !(t1.last().0@ == block_cid@ && t1.last().1@ == d) {
                        assert(has_pair_str(self.block_owners@.take(i as int), block_cid@, d));
                        assert(listed(before, d));
                        let m = choose|m: int| 0 <= m < before.len() && before[m]@ == d;
                        assert(found@[m] == before[m]);
                        assert(found@[m]@ == d);
                    } else {
                        assert(found@[found@.len() - 1]@ == d);
                    }
                }
            }
            i += 1;
        }
        assert(self.block_owners@.take(self.block_owners@.len() as int) =~= self.block_owners@);
        let res = sorted_distinct(&found);
        proof {
            assert forall|k: int| 0 <= k < res@.len() implies self.owns(block_cid@, #[trigger] res@[k]@) by {
                let j = choose|j: int| 0 <= j < views(found@).len() && views(found@)[j] == res@[k]@;
                assert(views(found@)[j] == found@[j]@);
            }
            assert forall|d: Seq<char>| self.owns(block_cid@, d) implies listed(res@, d) by {
                assert(has_pair_str(self.block_owners@.take(self.block_owners@.len() as int), block_cid@, d));
                assert(listed(found@, d));
                let m = choose|m: int| 0 <= m < found@.len() && found@[m]@ == d;
                assert(listed(res@, found@[m]@));
            }
        }
        res
    }

    /// Removes the record that document `doc_id` owns block `block_cid`;
    /// nothing is done when either is empty.
    pub fn delete_block_doc_id_mapping(&mut self, block_cid: &str, doc_id: &str)
        ensures
            forall|k: u64| final(self).primary_of(k) == old(self).primary_of(k),
            forall|d: Seq<char>| final(self).ref_of(d) == old(self).ref_of(d),
            forall|k: u64, d: Seq<char>| final(self).has_alias(k, d) == old(self).has_alias(k, d),
            forall|b: Seq<char>, d: Seq<char>| #[trigger] final(self).owns(b, d) == if block_cid@.len() == 0 || doc_id@.len() == 0 {
                old(self).owns(b, d)
            } else {
                !(b == block_cid@ && d == doc_id@) && old(self).owns(b, d)
            },
    {
        if block_cid.unicode_len() == 0 || doc_id.unicode_len() == 0 {
            return;
        }
        self.block_owners = without_pair_str(&self.block_owners, block_cid, doc_id);
    }

    /// Removes every mapping of short ID `doc_short_id`: its primary DocID,
    /// all its aliases, and where each of its (non-empty) DocIDs resolves
    /// to; nothing is done for short ID 0.
    pub fn delete_doc_id_mappings(&mut self, doc_short_id: u64)
        ensures
            mappings_deleted(*old(self), *final(self), doc_short_id),
    {
        if doc_short_id == 0 {
            return;
        }
        self.primary = without_short(&self.primary, doc_short_id);
        let mut gone: Vec<String> = Vec::new();
        let mut i: usize = 0;
        assert(self.aliases@.take(0) =~= Seq::<(u64, String)>::empty());
        while i < self.aliases.len()
            invariant
                0 <= i <= self.aliases@.len(),
                forall|d: Seq<char>| views(gone@).contains(d) == (has_pair_short(self.aliases@.take(i as int), doc_short_id, d) && d.len() > 0),
            decreases self.aliases.len() - i,
        {
            let ghost t1 = self.aliases@.take(i + 1);
            let ghost before = views(gone@);
            assert(t1.drop_last() =~= self.aliases@.take(i as int));
            assert(t1.last() == self.aliases@[i as int]);
            if self.aliases[i].0 == doc_short_id && self.aliases[i].1.as_str().unicode_len() > 0 {
                gone.push(self.aliases[i].1.clone());
                assert(views(gone@) =~= before.push(self.aliases@[i as int].1@));
            }
            proof {
                let pushed = t1.last().0 == doc_short_id && t1.last().1@.len() > 0;
                assert forall|d: Seq<char>| #[trigger] views(gone@).contains(d) == (has_pair_short(t1, doc_short_id, d) && d.len() > 0) by {
                    assert(before.contains(d) == (has_pair_short(self.aliases@.take(i as int), doc_short_id, d) && d.len() > 0));
                    assert(has_pair_short(t1, doc_short_id, d) == ((t1.last().0 == doc_short_id && t1.last().1@ == d)
                        || has_pair_short(t1.drop_last(), doc_short_id, d)));
                    if pushed {
                        lemma_seq_contains_after_push(before, t1.last().1@, d);
                    } else {
                        assert(views(gone@) == before);
                    }
                }
            }
            i += 1;
        }
        assert(self.aliases@.take(self.aliases@.len() as int) =~= self.aliases@);
        self.refs = without_refs(&self.refs, &gone);
        self.aliases = without_short(&self.aliases, doc_short_id);
    }

    /// The documents that authorize block `block_cid`: none for a block that
    /// belongs to no document (a collection or definition block); its
    /// recorded owners, each once, in ascending order; the document a
    /// genesis commit creates (`genesis_doc_id`, the DocID derived from the
    /// block's CID) when no owner is recorded; and no answer at all (the
    /// block must not be served) for any other document block.
    pub fn resolve_block_doc_ids(&self, block_cid: &str, block: &Block, genesis_doc_id: &str) -> (res: Option<Vec<String>>)
        ensures
            !is_document_delta(block.delta) ==> (res matches Some(v) && v@.len() == 0),
            is_document_delta(block.delta) ==> match res {
                Some(v) => {
                    ||| (v@.len() > 0
                        && block_cid@.len() > 0
                        && (forall|k: int| 0 <= k < v@.len() ==> self.owns(block_cid@, #[trigger] v@[k]@))
                        && (forall|d: Seq<char>| self.owns(block_cid@, d) ==> listed(v@, d))
                        && (forall|j: int, k: int| 0 <= j < k < v@.len() ==> lex_lt(v@[j]@, v@[k]@)))
                    ||| ((block_cid@.len() == 0 || forall|d: Seq<char>| !self.owns(block_cid@, d))
                        && is_genesis_block(*block)
                        && v@.len() == 1 && v@[0]@ == genesis_doc_id@)
                },
                None => (block_cid@.len() == 0 || forall|d: Seq<char>| !self.owns(block_cid@, d)) && !is_genesis_block(*block),
            },
    {
        let doc_delta = match &block.delta {
            CrdtDelta::Lww { .. } | CrdtDelta::Counter { .. } | CrdtDelta::Composite { .. } => true,
            _ => false,
        };
        if !doc_delta {
            return Some(Vec::new());
        }
        let owners = self.get_doc_ids_for_block(block_cid);
        if owners.len() > 0 {
            let sorted = sorted_distinct(&owners);
            proof {
                assert forall|k: int| 0 <= k < sorted@.len() implies self.owns(block_cid@, #[trigger] sorted@[k]@) by {
                    let j = choose|j: int| 0 <= j < views(owners@).len() && views(owners@)[j] == sorted@[k]@;
                    assert(views(owners@)[j] == owners@[j]@);
                }
                assert(block_cid@.len() > 0);
                assert forall|d: Seq<char>| self.owns(block_cid@, d) implies listed(sorted@, d) by {
                    assert(listed(owners@, d));
                    let m = choose|m: int| 0 <= m < owners@.len() && owners@[m]@ == d;
                    assert(listed(sorted@, owners@[m]@));
                }
                assert(listed(sorted@, owners@[0]@));
            }
            return Some(sorted);
        }
        proof {
            if block_cid@.len() > 0 {
                assert forall|d: Seq<char>| !self.owns(block_cid@, d) by {
                    if self.owns(block_cid@, d) {
                        assert(listed(owners@, d));
                    }
                }
            }
        }
        let no_heads = match &block.heads {
            None => true,
            Some(h) => h.len() == 0,
        };
        let genesis = no_heads && block.delta.priority() == 1 && match &block.delta {
            CrdtDelta::Composite { .. } => true,
            _ => false,
        };
        if genesis {
            let v = vec![String::from_str(genesis_doc_id)];
            return Some(v);
        }
        None
    }
}


/// A recorded mapping reads back: the short ID resolves to the DocID, the
/// DocID to where the document lives, and the DocID is among the short ID's.
pub proof fn law_mapping_reads_back(before: DocIdIndex, after: DocIdIndex, c: u32, s: u64, d: Seq<char>)
    requires
        mapping_recorded(before, after, c, s, d),
        c != 0,
        s != 0,
        d.len() > 0,
    ensures
        after.primary_of(s) == Some(d),
        after.ref_of(d) == Some(DocRef { collection_short_id: c, doc_short_id: s }),
        after.has_alias(s, d),
{
}

/// Registering the same alias twice leaves the index as the first time did.
pub proof fn law_alias_idempotent(
    before: DocIdIndex,
    once: DocIdIndex,
    twice: DocIdIndex,
    c: u32,
    s: u64,
    x: Seq<char>,
    r1: Result<(), Error>,
    r2: Result<(), Error>,
)
    requires
        alias_recorded(before, once, c, s, x, r1),
        alias_recorded(once, twice, c, s, x, r2),
    ensures
        twice.same_answers(&once),
{
    if !(c == 0 || s == 0 || x.len() == 0) {
        let new_ref = DocRef { collection_short_id: c, doc_short_id: s };
        if !(before.ref_of(x) matches Some(r) && r != new_ref) {
            assert(once.ref_of(x) == Some(new_ref));
            assert forall|d: Seq<char>| twice.ref_of(d) == once.ref_of(d) by {}
            assert forall|k: u64, d: Seq<char>| twice.has_alias(k, d) == once.has_alias(k, d) by {}
        }
    }
}

/// An alias never takes over a DocID that belongs to another document: the
/// request is refused and the index is left as it was.
pub proof fn law_alias_never_steals(
    before: DocIdIndex,
    after: DocIdIndex,
    c: u32,
    s: u64,
    x: Seq<char>,
    res: Result<(), Error>,
)
    requires
        alias_recorded(before, after, c, s, x, res),
        c != 0,
        s != 0,
        x.len() > 0,
        (before.ref_of(x) matches Some(r) && r != (DocRef { collection_short_id: c, doc_short_id: s })),
    ensures
        res is Err,
        after.same_answers(&before),
{
}

/// Block ownership is a set: recording the same owner again changes nothing.
pub proof fn law_block_ownership_is_a_set(
    before: DocIdIndex,
    once: DocIdIndex,
    twice: DocIdIndex,
    b: Seq<char>,
    d: Seq<char>,
)
    requires
        ownership_recorded(before, once, b, d),
        ownership_recorded(once, twice, b, d),
    ensures
        twice.same_answers(&once),
{
    assert forall|y: Seq<char>, x: Seq<char>| twice.owns(y, x) == once.owns(y, x) by {
        assert(twice.owns(y, x) == if b.len() == 0 || d.len() == 0 { once.owns(y, x) } else { (y == b && x == d) || once.owns(y, x) });
        assert(once.owns(y, x) == if b.len() == 0 || d.len() == 0 { before.owns(y, x) } else { (y == b && x == d) || before.owns(y, x) });
    }
}

/// Deleting the mappings of a short ID removes everything that recording
/// them created.
pub proof fn law_delete_removes_mapping(
    before: DocIdIndex,
    mapped: DocIdIndex,
    deleted: DocIdIndex,
    c: u32,
    s: u64,
    d: Seq<char>,
)
    requires
        mapping_recorded(before, mapped, c, s, d),
        mappings_deleted(mapped, deleted, s),
        c != 0,
        s != 0,
        d.len() > 0,
    ensures
        deleted.primary_of(s) is None,
        deleted.ref_of(d) is None,
        !deleted.has_alias(s, d),
{
    assert(mapped.has_alias(s, d));
}

} // verus!
