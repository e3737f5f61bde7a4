//! Commit history queries: which commits a query asks for, how a CID argument
//! is judged, how a block becomes a commit record, and the order commits are
//! returned in.

use vstd::prelude::*;
use vstd::string::StringExecFns;
use vstd::string::StringSliceAdditionalSpecFns;
use crate::error::Error;
use crate::text::{clone_opt, clone_strings, lemma_lex_asym, lemma_lex_total, lemma_lex_trans, lex_lt, starts_with, str_eq, str_lt, views};
use crate::outside::{base64_encode, base64_standard, cid_parses, parses_as_cid};

verus! {

/// Options for commit queries.
#[derive(Debug)]
pub struct CommitsQueryOptions {
    /// Filter by document ID.
    pub doc_id: Option<String>,
    /// Filter by a specific CID.
    pub cid: Option<String>,
    /// Maximum depth to traverse (None = unlimited).
    pub depth: Option<u64>,
    /// Filter by field name.
    pub field_name: Option<String>,
    /// Inclusive minimum commit height for indexed range scans.
    pub height_start: Option<u64>,
    /// Exclusive maximum commit height for indexed range scans.
    pub height_end: Option<u64>,
}

impl CommitsQueryOptions {
    /// Options that filter nothing.
    pub fn default() -> (res: Self)
        ensures
            res.doc_id is None,
            res.cid is None,
            res.depth is None,
            res.field_name is None,
            res.height_start is None,
            res.height_end is None,
    {
        CommitsQueryOptions { doc_id: None, cid: None, depth: None, field_name: None, height_start: None, height_end: None }
    }
}

/// How a commits query is answered.
#[derive(Debug, PartialEq, Eq)]
pub enum CommitsPlan {
    /// Fetch the one commit named by the query's CID (and its ancestors up to the depth).
    ByCid,
    /// Scan the document's commits by height through the priority index.
    ByHeightRange,
    /// Walk the history from every head.
    FromHeads,
}

/// Chooses how to answer a commits query: a CID wins; a document with a
/// height range and no depth uses the priority index; everything else walks
/// from the heads.
pub fn plan_commits_query(options: &CommitsQueryOptions) -> (res: CommitsPlan)
    ensures
        options.cid is Some ==> res is ByCid,
        options.cid is None && options.doc_id is Some && options.depth is None
            && (options.height_start is Some || options.height_end is Some) ==> res is ByHeightRange,
        options.cid is None && !(options.doc_id is Some && options.depth is None
            && (options.height_start is Some || options.height_end is Some)) ==> res is FromHeads,
{
    if options.cid.is_some() {
        return CommitsPlan::ByCid;
    }
    if options.doc_id.is_some() && options.depth.is_none()
        && (options.height_start.is_some() || options.height_end.is_some()) {
        return CommitsPlan::ByHeightRange;
    }
    CommitsPlan::FromHeads
}

/// Whether the walk from the heads continues past a commit found at
/// `current_depth` (heads are at depth 0): `depth = 1` means only the heads,
/// `depth = 2` the heads and their parents, and so on.
pub fn should_traverse(depth: Option<u64>, current_depth: u64) -> (res: bool)
    ensures
        res == (match depth { None => true, Some(max) => current_depth + 1 < max }),
{
    match depth {
        None => true,
        Some(max_depth) => current_depth < max_depth && current_depth + 1 < max_depth,
    }
}

/// Whether a string looks like a CID (CIDv1 in base32 with a common codec
/// prefix, or CIDv0), so that a CID the parser rejects is reported as unknown
/// rather than malformed.
pub open spec fn looks_like_cid(s: &str) -> bool {
    &&& s.len() >= 40
    &&& (has_prefix(s@, "bafy"@) || has_prefix(s@, "bafk"@) || has_prefix(s@, "bafz"@)
        || has_prefix(s@, "bafr"@) || has_prefix(s@, "Qm"@))
}

/// Whether `p` is a prefix of `s`.
pub open spec fn has_prefix(s: Seq<char>, p: Seq<char>) -> bool {
    p.len() <= s.len() && s.subrange(0, p.len() as int) == p
}

/// Whether `s` looks like a CID: at least 40 bytes long and starting with
/// `bafy`, `bafk`, `bafz`, `bafr` or `Qm`.
pub fn looks_like_cidv1(s: &str) -> (res: bool)
    ensures
        res == looks_like_cid(s),
{
    if s.len() < 40 {
        return false;
    }
    starts_with(s, "bafy") || starts_with(s, "bafk") || starts_with(s, "bafz") || starts_with(s, "bafr")
        || starts_with(s, "Qm")
}

/// The message for a CID argument that is well formed but unknown.
pub open spec fn unknown_cid_message() -> Seq<char> {
    "cid either does not exist or belong to document"@
}

/// The message for a malformed CID argument.
pub open spec fn invalid_cid_message() -> Seq<char> {
    "invalid cid: selected encoding not supported"@
}

/// Judges the CID argument of a commits query: it is accepted when the CID
/// library parses it; a rejected string that looks like a CID is reported as
/// unknown, anything else as malformed.
pub fn parse_commit_cid(cid_str: &str) -> (res: Result<(), Error>)
    ensures
        parses_as_cid(cid_str@) ==> res is Ok,
        !parses_as_cid(cid_str@) && looks_like_cid(cid_str) ==>
            (res matches Err(Error::Serialization(m)) && m@ == unknown_cid_message()),
        !parses_as_cid(cid_str@) && !looks_like_cid(cid_str) ==>
            (res matches Err(Error::Serialization(m)) && m@ == invalid_cid_message()),
{
    if cid_parses(cid_str) {
        Ok(())
    } else if looks_like_cidv1(cid_str) {
        Err(Error::Serialization(String::from_str("cid either does not exist or belong to document")))
    } else {
        Err(Error::Serialization(String::from_str("invalid cid: selected encoding not supported")))
    }
}

/// The payload of a block: a CRDT delta.
#[derive(Debug)]
pub enum CrdtDelta {
    /// A last-writer-wins field update.
    Lww { field_name: String, schema_version_id: String, priority: u64, data: Vec<u8> },
    /// A counter field update.
    Counter { field_name: String, schema_version_id: String, priority: u64, data: Vec<u8> },
    /// The composite (whole-document) commit.
    Composite { schema_version_id: String, priority: u64, status: u8 },
    /// A collection commit.
    Collection { schema_version_id: String, priority: u64 },
    /// A collection-set commit.
    CollectionSet { priority: u64 },
    /// A field-definition commit.
    FieldDefinition { priority: u64 },
    /// A collection-definition commit.
    CollectionDefinition { priority: u64 },
}

impl CrdtDelta {
    pub open spec fn priority_spec(&self) -> u64 {
        match *self {
            CrdtDelta::Lww { priority, .. } => priority,
            CrdtDelta::Counter { priority, .. } => priority,
            CrdtDelta::Composite { priority, .. } => priority,
            CrdtDelta::Collection { priority, .. } => priority,
            CrdtDelta::CollectionSet { priority } => priority,
            CrdtDelta::FieldDefinition { priority } => priority,
            CrdtDelta::CollectionDefinition { priority } => priority,
        }
    }

    /// The delta's priority (its height in the document's history).
    pub fn priority(&self) -> (res: u64)
        ensures
            res == self.priority_spec(),
    {
        match self {
            CrdtDelta::Lww { priority, .. } => *priority,
            CrdtDelta::Counter { priority, .. } => *priority,
            CrdtDelta::Composite { priority, .. } => *priority,
            CrdtDelta::Collection { priority, .. } => *priority,
            CrdtDelta::CollectionSet { priority } => *priority,
            CrdtDelta::FieldDefinition { priority } => *priority,
            CrdtDelta::CollectionDefinition { priority } => *priority,
        }
    }
}

/// The field a delta belongs to: its field name, `_C` for the composite
/// commit, none for collection and definition commits.
pub open spec fn delta_field_name(d: CrdtDelta) -> Option<Seq<char>> {
    match d {
        CrdtDelta::Lww { field_name, .. } => Some(field_name@),
        CrdtDelta::Counter { field_name, .. } => Some(field_name@),
        CrdtDelta::Composite { .. } => Some("_C"@),
        _ => None,
    }
}

/// The field name of a delta (see `delta_field_name`).
pub fn get_field_name(delta: &CrdtDelta) -> (res: Option<String>)
    ensures
        res is Some == delta_field_name(*delta) is Some,
        res is Some ==> res->0@ == delta_field_name(*delta)->0,
{
    match delta {
        CrdtDelta::Lww { field_name, .. } => Some(field_name.clone()),
        CrdtDelta::Counter { field_name, .. } => Some(field_name.clone()),
        CrdtDelta::Composite { .. } => Some(String::from_str("_C")),
        _ => None,
    }
}

/// The encoded value a delta carries: the data of field updates, when not empty.
pub open spec fn delta_data(d: CrdtDelta) -> Option<Seq<u8>> {
    match d {
        CrdtDelta::Lww { data, .. } => if data@.len() == 0 { None } else { Some(data@) },
        CrdtDelta::Counter { data, .. } => if data@.len() == 0 { None } else { Some(data@) },
        _ => None,
    }
}

/// Whether a block with delta `d` passes the field filter of a commits
/// query: every block does without a filter; with one, only blocks of that
/// field.
pub fn passes_field_filter(filter: &Option<String>, delta: &CrdtDelta) -> (res: bool)
    ensures
        res == match *filter {
            None => true,
            Some(f) => delta_field_name(*delta) == Some(f@),
        },
{
    match filter {
        None => true,
        Some(f) => match get_field_name(delta) {
            Some(n) => str_eq(n.as_str(), f.as_str()),
            None => false,
        },
    }
}

/// The encoded value a delta carries (see `delta_data`).
pub fn get_delta_data(delta: &CrdtDelta) -> (res: Option<&Vec<u8>>)
    ensures
        res is Some == delta_data(*delta) is Some,
        res is Some ==> res->0@ == delta_data(*delta)->0,
{
    match delta {
        CrdtDelta::Lww { data, .. } => if data.len() == 0 { None } else { Some(data) },
        CrdtDelta::Counter { data, .. } => if data.len() == 0 { None } else { Some(data) },
        _ => None,
    }
}

/// The collection version a delta was written under, where it records one.
pub open spec fn delta_schema_version(d: CrdtDelta) -> Option<Seq<char>> {
    match d {
        CrdtDelta::Lww { schema_version_id, .. } => Some(schema_version_id@),
        CrdtDelta::Counter { schema_version_id, .. } => Some(schema_version_id@),
        CrdtDelta::Composite { schema_version_id, .. } => Some(schema_version_id@),
        CrdtDelta::Collection { schema_version_id, .. } => Some(schema_version_id@),
        _ => None,
    }
}

/// The collection version id of a delta (see `delta_schema_version`).
pub fn get_schema_version_id(delta: &CrdtDelta) -> (res: Option<String>)
    ensures
        res is Some == delta_schema_version(*delta) is Some,
        res is Some ==> res->0@ == delta_schema_version(*delta)->0,
{
    match delta {
        CrdtDelta::Lww { schema_version_id, .. } => Some(schema_version_id.clone()),
        CrdtDelta::Counter { schema_version_id, .. } => Some(schema_version_id.clone()),
        CrdtDelta::Composite { schema_version_id, .. } => Some(schema_version_id.clone()),
        CrdtDelta::Collection { schema_version_id, .. } => Some(schema_version_id.clone()),
        _ => None,
    }
}

/// A named link from a block to another block.
#[derive(Debug)]
pub struct BlockLink {
    pub name: String,
    pub cid: String,
}

/// A block of the history DAG, with its CIDs in string form.
#[derive(Debug)]
pub struct Block {
    pub delta: CrdtDelta,
    pub links: Option<Vec<BlockLink>>,
    pub heads: Option<Vec<String>>,
}

/// A link as shown in a commit record.
#[derive(Debug)]
pub struct CommitLink {
    pub cid: String,
    pub field_name: String,
}

/// A commit record, as the commits query returns it.
#[derive(Debug)]
pub struct CommitDoc {
    pub cid: String,
    pub height: i64,
    pub field_name: Option<String>,
    pub doc_id: Option<String>,
    /// The delta's encoded value, in standard base64.
    pub delta: Option<String>,
    pub collection_version_id: Option<String>,
    pub links: Vec<CommitLink>,
    pub heads: Vec<String>,
}

/// Whether two optional strings have equal contents.
pub open spec fn opt_eq(a: Option<String>, b: Option<Seq<char>>) -> bool {
    match (a, b) {
        (None, None) => true,
        (Some(x), Some(y)) => x@ == y,
        _ => false,
    }
}

/// Whether `doc` is the commit record of block `block` with CID `cid`, owned by `doc_id`.
pub open spec fn is_commit_doc(doc: CommitDoc, cid: Seq<char>, block: Block, doc_id: Option<Seq<char>>) -> bool {
    &&& doc.cid@ == cid
    &&& doc.height == block.delta.priority_spec() as i64
    &&& opt_eq(doc.field_name, delta_field_name(block.delta))
    &&& opt_eq(doc.doc_id, doc_id)
    &&& opt_eq(doc.delta, match delta_data(block.delta) { Some(d) => Some(base64_standard(d)), None => None })
    &&& opt_eq(doc.collection_version_id, delta_schema_version(block.delta))
    &&& doc.links@.len() == (match block.links { Some(l) => l@.len(), None => 0 })
    &&& forall|i: int| 0 <= i < doc.links@.len() ==> (#[trigger] doc.links@[i]).cid@ == block.links->0@[i].cid@
        && doc.links@[i].field_name@ == block.links->0@[i].name@
    &&& views(doc.heads@) == (match block.heads { Some(h) => views(h@), None => Seq::empty() })
}

/// Converts a block to the commit record the commits query returns for the
/// document `doc_id`: its CID, height, field, owner, base64 delta value,
/// collection version, links and heads.
pub fn block_to_commit_doc(cid: &String, block: &Block, doc_id: &Option<String>) -> (res: CommitDoc)
    ensures
        is_commit_doc(res, cid@, *block, match *doc_id { Some(d) => Some(d@), None => None }),
{
    let delta = match get_delta_data(&block.delta) {
        Some(data) => Some(base64_encode(data.as_slice())),
        None => None,
    };
    let mut links: Vec<CommitLink> = Vec::new();
    if let Some(block_links) = &block.links {
        let mut i: usize = 0;
        while i < block_links.len()
            invariant
                0 <= i <= block_links.len(),
                links@.len() == i,
                forall|k: int| 0 <= k < i ==> (#[trigger] links@[k]).cid@ == block_links@[k].cid@
                    && links@[k].field_name@ == block_links@[k].name@,
            decreases block_links.len() - i,
        {
            links.push(CommitLink { cid: block_links[i].cid.clone(), field_name: block_links[i].name.clone() });
            i += 1;
        }
    }
    let heads = match &block.heads {
        Some(h) => clone_strings(h),
        None => Vec::new(),
    };
    proof {
        if block.heads is None {
            assert(views(heads@) =~= Seq::<Seq<char>>::empty());
        }
    }
    CommitDoc {
        cid: cid.clone(),
        height: block.delta.priority() as i64,
        field_name: get_field_name(&block.delta),
        doc_id: clone_opt(doc_id),
        delta,
        collection_version_id: get_schema_version_id(&block.delta),
        links,
        heads,
    }
}

// ---------------------------------------------------------------------------
// Result order
// ---------------------------------------------------------------------------

/// The document a commit record belongs to, empty when it has none.
pub open spec fn doc_key(c: CommitDoc) -> Seq<char> {
    match c.doc_id { Some(d) => d@, None => ""@ }
}

/// The field a commit record belongs to, empty when it has none.
pub open spec fn field_key(c: CommitDoc) -> Seq<char> {
    match c.field_name { Some(f) => f@, None => ""@ }
}

/// Field order within a document: regular fields by name, the composite
/// field `_C` last.
pub open spec fn field_lt(a: Seq<char>, b: Seq<char>) -> bool {
    if a == "_C"@ && b != "_C"@ {
        false
    } else if a != "_C"@ && b == "_C"@ {
        true
    } else {
        lex_lt(a, b)
    }
}

/// Index of the first of the first `n` records belonging to document `d`, or -1.
pub open spec fn first_doc_index(s: Seq<CommitDoc>, d: Seq<char>, n: int) -> int
    decreases n,
{
    if n <= 0 {
        -1
    } else if first_doc_index(s, d, n - 1) >= 0 {
        first_doc_index(s, d, n - 1)
    } else if doc_key(s[n - 1]) == d {
        n - 1
    } else {
        -1
    }
}

/// The rank of record `k`'s document: where that document was first seen.
pub open spec fn doc_rank(s: Seq<CommitDoc>, k: int) -> int {
    first_doc_index(s, doc_key(s[k]), s.len() as int)
}

/// Whether record `x` sorts strictly before record `y`.
pub open spec fn key_lt(s: Seq<CommitDoc>, x: int, y: int) -> bool {
    doc_rank(s, x) < doc_rank(s, y)
        || (doc_rank(s, x) == doc_rank(s, y) && field_lt(field_key(s[x]), field_key(s[y])))
}

/// Whether records `x` and `y` have the same sort key.
pub open spec fn key_eq(s: Seq<CommitDoc>, x: int, y: int) -> bool {
    doc_rank(s, x) == doc_rank(s, y) && field_key(s[x]) == field_key(s[y])
}

/// Whether record `x` comes before (or is) record `y` in the stable result order.
pub open spec fn ord(s: Seq<CommitDoc>, x: int, y: int) -> bool {
    key_lt(s, x, y) || (key_eq(s, x, y) && x <= y)
}

/// Whether `res` is `s` rearranged by `p` into the result order: documents
/// in the order they were first seen, within a document regular fields by
/// name and the composite last, equal keys in the order they came in.
pub open spec fn commit_order_by(s: Seq<CommitDoc>, res: Seq<CommitDoc>, p: Seq<int>) -> bool {
    &&& p.len() == s.len()
    &&& res.len() == s.len()
    &&& forall|i: int| 0 <= i < p.len() ==> 0 <= #[trigger] p[i] < s.len()
    &&& forall|i: int, j: int| 0 <= i < j < p.len() ==> p[i] != p[j]
    &&& forall|i: int| 0 <= i < p.len() ==> res[i] == s[#[trigger] p[i]]
    &&& forall|i: int, j: int| 0 <= i < j < p.len() ==> ord(s, #[trigger] p[i], #[trigger] p[j])
}

proof fn lemma_field_order(a: Seq<char>, b: Seq<char>, c: Seq<char>)
    ensures
        !(field_lt(a, b) && field_lt(b, a)),
        !field_lt(a, a),
        a != b ==> field_lt(a, b) || field_lt(b, a),
        field_lt(a, b) && field_lt(b, c) ==> field_lt(a, c),
{
    lemma_lex_asym(a, b);
    lemma_lex_total(a, b);
    if field_lt(a, b) && field_lt(b, c) {
        if a != "_C"@ && b != "_C"@ && c != "_C"@ {
            lemma_lex_trans(a, b, c);
        }
    }
}

proof fn lemma_first_doc_stable(s: Seq<CommitDoc>, d: Seq<char>, m: int, n: int)
    requires
        0 <= m <= n,
        first_doc_index(s, d, m) >= 0,
    ensures
        first_doc_index(s, d, n) == first_doc_index(s, d, m),
    decreases n - m,
{
    if n > m {
        lemma_first_doc_stable(s, d, m, n - 1);
    }
}

proof fn lemma_first_doc_range(s: Seq<CommitDoc>, d: Seq<char>, n: int)
    requires
        0 <= n <= s.len(),
    ensures
        -1 <= first_doc_index(s, d, n) < n,
    decreases n,
{
    if n > 0 {
        lemma_first_doc_range(s, d, n - 1);
    }
}

/// The key order is a strict weak order: asymmetric, transitive, and two
/// records with neither before the other have equal keys.
proof fn lemma_key_order(s: Seq<CommitDoc>, x: int, y: int, z: int)
    ensures
        !(key_lt(s, x, y) && key_lt(s, y, x)),
        !key_lt(s, x, x),
        !key_lt(s, x, y) && !key_lt(s, y, x) ==> key_eq(s, x, y),
        key_lt(s, x, y) && key_lt(s, y, z) ==> key_lt(s, x, z),
        key_lt(s, x, y) && key_eq(s, y, z) ==> key_lt(s, x, z),
        key_eq(s, x, y) && key_lt(s, y, z) ==> key_lt(s, x, z),
{
    lemma_field_order(field_key(s[x]), field_key(s[y]), field_key(s[z]));
    lemma_field_order(field_key(s[y]), field_key(s[x]), field_key(s[z]));
}

fn opt_str(o: &Option<String>) -> (res: &str)
    ensures
        res@ == (match *o { Some(d) => d@, None => ""@ }),
{
    match o {
        Some(d) => d.as_str(),
        None => "",
    }
}

/// Whether record `a` sorts strictly before record `b`, given their ranks.
fn record_lt(ra: usize, a: &CommitDoc, rb: usize, b: &CommitDoc) -> (res: bool)
    ensures
        res == (ra < rb || (ra == rb && field_lt(field_key(*a), field_key(*b)))),
{
    if ra != rb {
        return ra < rb;
    }
    let fa = opt_str(&a.field_name);
    let fb = opt_str(&b.field_name);
    let a_c = str_eq(fa, "_C");
    let b_c = str_eq(fb, "_C");
    if a_c && !b_c {
        false
    } else if !a_c && b_c {
        true
    } else {
        str_lt(fa, fb)
    }
}

/// The rank of every record: the index where its document was first seen.
fn doc_ranks(s: &Vec<CommitDoc>) -> (res: Vec<usize>)
    ensures
        res@.len() == s@.len(),
        forall|k: int| 0 <= k < s@.len() ==> res@[k] as int == #[trigger] doc_rank(s@, k),
{
    let mut ranks: Vec<usize> = Vec::new();
    let mut k: usize = 0;
    while k < s.len()
        invariant
            0 <= k <= s.len(),
            ranks@.len() == k,
            forall|t: int| 0 <= t < k ==> ranks@[t] as int == #[trigger] doc_rank(s@, t),
        decreases s.len() - k,
    {
        let dk = opt_str(&s[k].doc_id);
        let mut j: usize = 0;
        while j < k
            invariant
                0 <= j <= k < s.len(),
                dk@ == doc_key(s@[k as int]),
                first_doc_index(s@, dk@, j as int) == -1,
            ensures
                0 <= j <= k,
                first_doc_index(s@, dk@, j as int) == -1,
                j < k ==> doc_key(s@[j as int]) == dk@,
            decreases k - j,
        {
            if str_eq(opt_str(&s[j].doc_id), dk) {
                break;
            }
            j += 1;
        }
        proof {
            if j < k {
                assert(first_doc_index(s@, dk@, j as int + 1) == j as int);
                lemma_first_doc_stable(s@, dk@, j as int + 1, s@.len() as int);
            } else {
                assert(first_doc_index(s@, dk@, k as int + 1) == k as int);
                lemma_first_doc_stable(s@, dk@, k as int + 1, s@.len() as int);
            }
        }
        ranks.push(j);
        k += 1;
    }
    ranks
}

/// Sorts commit records into the order the commits query returns them:
/// documents in the order they were first seen, and within a document regular
/// fields by name with the composite commit `_C` last. The sort is stable.
pub fn sort_commits_go_order(commits: &mut Vec<CommitDoc>)
    ensures
        exists|p: Seq<int>| commit_order_by(old(commits)@, final(commits)@, p),
{
    let ghost s = commits@;
    let mut work: Vec<CommitDoc> = Vec::new();
    std::mem::swap(commits, &mut work);
    let mut ranks = doc_ranks(&work);
    let mut out: Vec<CommitDoc> = Vec::new();
    let ghost mut oi: Seq<int> = Seq::empty();
    let ghost mut wi: Seq<int> = Seq::new(s.len(), |i: int| i);
    while work.len() > 0
        invariant
            s.len() == oi.len() + wi.len(),
            out@.len() == oi.len(),
            work@.len() == wi.len(),
            ranks@.len() == wi.len(),
            forall|k: int| 0 <= k < oi.len() ==> 0 <= #[trigger] oi[k] < s.len() && out@[k] == s[oi[k]],
            forall|k: int| 0 <= k < wi.len() ==> 0 <= #[trigger] wi[k] < s.len() && work@[k] == s[wi[k]]
                && ranks@[k] as int == doc_rank(s, wi[k]),
            forall|a: int, b: int| 0 <= a < b < wi.len() ==> #[trigger] wi[a] < #[trigger] wi[b],
            forall|a: int, b: int| 0 <= a < b < oi.len() ==> #[trigger] oi[a] != #[trigger] oi[b],
            forall|a: int, b: int| 0 <= a < oi.len() && 0 <= b < wi.len() ==> #[trigger] oi[a] != #[trigger] wi[b],
            forall|a: int, b: int| 0 <= a < b < oi.len() ==> ord(s, #[trigger] oi[a], #[trigger] oi[b]),
            forall|a: int, b: int| 0 <= a < oi.len() && 0 <= b < wi.len() ==> ord(s, #[trigger] oi[a], #[trigger] wi[b]),
        decreases work.len(),
    {
        let mut m: usize = 0;
        let mut k: usize = 1;
        proof {
            lemma_key_order(s, wi[0], wi[0], wi[0]);
        }
        while k < work.len()
            invariant
                work@.len() == wi.len(),
                ranks@.len() == wi.len(),
                forall|t: int| 0 <= t < wi.len() ==> 0 <= #[trigger] wi[t] < s.len() && work@[t] == s[wi[t]]
                    && ranks@[t] as int == doc_rank(s, wi[t]),
                0 <= m < k <= work.len(),
                forall|b: int| 0 <= b < k ==> !key_lt(s, #[trigger] wi[b], wi[m as int]),
                forall|b: int| 0 <= b < m ==> key_lt(s, wi[m as int], #[trigger] wi[b]),
            decreases work.len() - k,
        {
            if record_lt(ranks[k], &work[k], ranks[m], &work[m]) {
                proof {
                    assert(key_lt(s, wi[k as int], wi[m as int]));
                    assert forall|b: int| 0 <= b < k implies key_lt(s, wi[k as int], #[trigger] wi[b]) by {
                        lemma_key_order(s, wi[k as int], wi[m as int], wi[b]);
                        lemma_key_order(s, wi[m as int], wi[b], wi[k as int]);
                        lemma_key_order(s, wi[b], wi[m as int], wi[k as int]);
                    }
                    assert forall|b: int| 0 <= b < k + 1 implies !key_lt(s, #[trigger] wi[b], wi[k as int]) by {
                        lemma_key_order(s, wi[k as int], wi[b], wi[k as int]);
                    }
                }
                m = k;
            }
            k += 1;
        }
        let ghost y = wi[m as int];
        let ghost old_wi = wi;
        let ghost old_oi = oi;
        let x = work.remove(m);
        let _ = ranks.remove(m);
        out.push(x);
        proof {
            oi = oi.push(y);
            wi = wi.remove(m as int);
            assert forall|b: int| 0 <= b < wi.len() implies ord(s, y, #[trigger] wi[b]) by {
                if b < m {
                    assert(wi[b] == old_wi[b]);
                    assert(key_lt(s, y, old_wi[b]));
                } else {
                    assert(wi[b] == old_wi[b + 1]);
                    assert(!key_lt(s, old_wi[b + 1], y));
                    lemma_key_order(s, y, old_wi[b + 1], y);
                    assert(y < old_wi[b + 1]);
                }
            }
            assert forall|a: int, b: int| 0 <= a < oi.len() && 0 <= b < wi.len()
                implies ord(s, #[trigger] oi[a], #[trigger] wi[b]) by {
                if a == oi.len() - 1 {
                } else {
                    if b < m {
                        assert(wi[b] == old_wi[b]);
                    } else {
                        assert(wi[b] == old_wi[b + 1]);
                    }
                }
            }
            assert forall|a: int, b: int| 0 <= a < b < oi.len() implies ord(s, #[trigger] oi[a], #[trigger] oi[b]) by {
                if b == oi.len() - 1 {
                    assert(ord(s, old_oi[a], old_wi[m as int]));
                }
            }
            assert forall|a: int, b: int| 0 <= a < oi.len() && 0 <= b < wi.len()
                implies #[trigger] oi[a] != #[trigger] wi[b] by {
                if b < m {
                    assert(wi[b] == old_wi[b]);
                    if a == oi.len() - 1 { assert(old_wi[b] < old_wi[m as int]); }
                } else {
                    assert(wi[b] == old_wi[b + 1]);
                    if a == oi.len() - 1 { assert(old_wi[m as int] < old_wi[b + 1]); }
                }
            }
            assert forall|a: int, b: int| 0 <= a < b < oi.len() implies #[trigger] oi[a] != #[trigger] oi[b] by {
                if b == oi.len() - 1 {
                    assert(old_oi[a] != old_wi[m as int]);
                }
            }
            assert forall|a: int, b: int| 0 <= a < b < wi.len() implies #[trigger] wi[a] < #[trigger] wi[b] by {
                let a0 = if a < m { a } else { a + 1 };
                let b0 = if b < m { b } else { b + 1 };
                assert(wi[a] == old_wi[a0]);
                assert(wi[b] == old_wi[b0]);
                assert(old_wi[a0] < old_wi[b0]);
            }
            assert forall|t: int| 0 <= t < wi.len() implies 0 <= #[trigger] wi[t] < s.len() && work@[t] == s[wi[t]]
                && ranks@[t] as int == doc_rank(s, wi[t]) by {
                if t < m {
                    assert(wi[t] == old_wi[t]);
                } else {
                    assert(wi[t] == old_wi[t + 1]);
                }
            }
            assert forall|t: int| 0 <= t < oi.len() implies 0 <= #[trigger] oi[t] < s.len() && out@[t] == s[oi[t]] by {
                if t < oi.len() - 1 {
                    assert(oi[t] == old_oi[t]);
                }
            }
        }
    }
    std::mem::swap(commits, &mut out);
    proof {
        assert(commit_order_by(s, commits@, oi));
    }
}


/// Within one document the sorted commits put regular fields in ascending
/// order of name and the composite commit `_C` after them: for any two
/// commits of one document in the result, a later regular field never sorts
/// below an earlier one, and nothing but `_C` follows a `_C`.
pub proof fn law_fields_ascend_within_a_document(s: Seq<CommitDoc>, res: Seq<CommitDoc>, p: Seq<int>, i: int, j: int)
    requires
        commit_order_by(s, res, p),
        0 <= i < j < res.len(),
        doc_key(res[i]) == doc_key(res[j]),
    ensures
        field_key(res[i]) != "_C"@ && field_key(res[j]) != "_C"@ ==> !lex_lt(field_key(res[j]), field_key(res[i])),
        field_key(res[i]) == "_C"@ ==> field_key(res[j]) == "_C"@,
{
    assert(ord(s, p[i], p[j]));
    assert(res[i] == s[p[i]] && res[j] == s[p[j]]);
    assert(doc_rank(s, p[i]) == doc_rank(s, p[j]));
    lemma_lex_asym(field_key(res[i]), field_key(res[j]));
    lemma_lex_asym(field_key(res[j]), field_key(res[j]));
}


proof fn lemma_first_doc_index(s: Seq<CommitDoc>, d: Seq<char>, n: int)
    requires
        0 <= n <= s.len(),
    ensures
        first_doc_index(s, d, n) >= 0 ==> doc_key(s[first_doc_index(s, d, n)]) == d
            && forall|m: int| 0 <= m < first_doc_index(s, d, n) ==> doc_key(#[trigger] s[m]) != d,
        first_doc_index(s, d, n) < 0 ==> forall|m: int| 0 <= m < n ==> doc_key(#[trigger] s[m]) != d,
        -1 <= first_doc_index(s, d, n) < n,
    decreases n,
{
    if n > 0 {
        lemma_first_doc_index(s, d, n - 1);
    }
}

/// The sorted commits keep documents in the order the input first met
/// them: when a commit of one document comes out before a commit of
/// another, the input met the first document before any commit of the
/// second.
pub proof fn law_documents_keep_discovery_order(s: Seq<CommitDoc>, res: Seq<CommitDoc>, p: Seq<int>, i: int, j: int)
    requires
        commit_order_by(s, res, p),
        0 <= i < j < res.len(),
        doc_key(res[i]) != doc_key(res[j]),
    ensures
        exists|m: int| 0 <= m < s.len() && doc_key(s[m]) == doc_key(res[i])
            && forall|m2: int| 0 <= m2 <= m ==> doc_key(#[trigger] s[m2]) != doc_key(res[j]),
{
    let n = s.len() as int;
    let di = doc_key(res[i]);
    let dj = doc_key(res[j]);
    assert(ord(s, p[i], p[j]));
    assert(res[i] == s[p[i]] && res[j] == s[p[j]]);
    lemma_first_doc_index(s, di, n);
    lemma_first_doc_index(s, dj, n);
    let ri = first_doc_index(s, di, n);
    let rj = first_doc_index(s, dj, n);
    assert(ri >= 0) by {
        if ri < 0 {
            assert(doc_key(s[p[i]]) != di);
        }
    }
    assert(rj >= 0) by {
        if rj < 0 {
            assert(doc_key(s[p[j]]) != dj);
        }
    }
    assert(ri != rj);
    assert(ri < rj);
    assert forall|m2: int| 0 <= m2 <= ri implies doc_key(#[trigger] s[m2]) != dj by {
        assert(m2 < rj);
    }
    assert(0 <= ri < n && doc_key(s[ri]) == di);
}

} // verus!
