//! Document short-ID allocation.
//!
//! Documents are stored under a node-local `u64` short ID. The persisted
//! sequence holds the end of the latest reserved range; an allocator hands out
//! the IDs of one reserved range in order and reserves the next range (with a
//! store transaction, done by the caller) when its range runs out. A crash can
//! leave gaps, but every ID handed out is unique across restarts and instances.

use vstd::prelude::*;
use vstd::string::StringExecFns;
use crate::error::Error;

verus! {

/// Number of IDs reserved at a time by default.
pub const DOC_SHORT_ID_RESERVATION_SIZE: u64 = 1024;

/// Number of commit conflicts a reservation retries before it gives up.
pub const MAX_RESERVATION_CONFLICT_RETRIES: u32 = 16;

/// The big-endian value of a byte sequence.
pub open spec fn be_value(bytes: Seq<u8>) -> nat
    decreases bytes.len(),
{
    if bytes.len() == 0 { 0 } else { be_value(bytes.drop_last()) * 256 + bytes.last() as nat }
}

/// 256 to the power `n`.
pub open spec fn pow256(n: nat) -> nat
    decreases n,
{
    if n == 0 { 1 } else { 256 * pow256((n - 1) as nat) }
}

proof fn lemma_be_value_bound(bytes: Seq<u8>)
    ensures
        be_value(bytes) < pow256(bytes.len()),
    decreases bytes.len(),
{
    if bytes.len() > 0 {
        lemma_be_value_bound(bytes.drop_last());
        let a = be_value(bytes.drop_last());
        let p = pow256((bytes.len() - 1) as nat);
        let b = bytes.last() as nat;
        assert(a * 256 + b < 256 * p) by (nonlinear_arith)
            requires a < p, b < 256;
    }
}

/// The value the persisted sequence holds: absent means 0, eight big-endian
/// bytes give their value, anything else is malformed.
pub open spec fn decoded_sequence(value: Option<Seq<u8>>) -> Option<nat> {
    match value {
        None => Some(0),
        Some(b) => if b.len() == 8 { Some(be_value(b)) } else { None },
    }
}

/// The error for a malformed persisted sequence.
pub open spec fn malformed_sequence_message() -> Seq<char> {
    "invalid persisted document short-ID sequence"@
}

/// The error for an exhausted sequence.
pub open spec fn exhausted_message() -> Seq<char> {
    "document short-ID sequence exhausted"@
}

/// Decodes the persisted sequence value.
pub fn decode_sequence(value: Option<Vec<u8>>) -> (res: Result<u64, Error>)
    ensures
        decoded_sequence(match value { None => None, Some(v) => Some(v@) }) matches Some(n)
            ==> (res matches Ok(x) && x as nat == n),
        decoded_sequence(match value { None => None, Some(v) => Some(v@) }) is None
            ==> (res matches Err(Error::Other(m)) && m@ == malformed_sequence_message()),
{
    match value {
        None => Ok(0),
        Some(bytes) => {
            if bytes.len() != 8 {
                return Err(Error::Other(String::from_str("invalid persisted document short-ID sequence")));
            }
            let mut v: u64 = 0;
            let mut i: usize = 0;
            while i < 8
                invariant
                    bytes@.len() == 8,
                    0 <= i <= 8,
                    v as nat == be_value(bytes@.take(i as int)),
                decreases 8 - i,
            {
                proof {
                    lemma_be_value_bound(bytes@.take(i as int + 1));
                    assert(bytes@.take(i as int + 1).drop_last() =~= bytes@.take(i as int));
                    lemma_pow256_8();
                    lemma_pow256_mono((i + 1) as nat, 8);
                }
                v = v * 256 + bytes[i] as u64;
                i += 1;
            }
            assert(bytes@.take(8) =~= bytes@);
            Ok(v)
        },
    }
}

proof fn lemma_pow256_mono(a: nat, b: nat)
    requires
        a <= b,
    ensures
        pow256(a) <= pow256(b),
    decreases b,
{
    if b > a {
        lemma_pow256_mono(a, (b - 1) as nat);
    }
}

proof fn lemma_be_value_prepend(b: u8, s: Seq<u8>)
    ensures
        be_value(seq![b] + s) == (b as nat) * pow256(s.len()) + be_value(s),
    decreases s.len(),
{
    if s.len() == 0 {
        assert(seq![b] + s =~= seq![b]);
        assert(seq![b].drop_last() =~= Seq::<u8>::empty());
        assert(be_value(seq![b]) == be_value(Seq::<u8>::empty()) * 256 + b as nat);
        assert(pow256(0) == 1);
        assert((b as nat) * 1 == b as nat);
    } else {
        lemma_be_value_prepend(b, s.drop_last());
        assert((seq![b] + s).drop_last() =~= seq![b] + s.drop_last());
        let p = pow256((s.len() - 1) as nat);
        let x = b as nat;
        let r = be_value(s.drop_last());
        let t = seq![b] + s;
        assert(t.last() == s.last());
        assert(be_value(t) == be_value(t.drop_last()) * 256 + t.last() as nat);
        assert(pow256(s.len()) == 256 * p);
        assert(be_value(s) == r * 256 + s.last() as nat);
        assert((x * p + r) * 256 + s.last() as nat == x * (256 * p) + (r * 256 + s.last() as nat)) by (nonlinear_arith);
    }
}

proof fn lemma_pow256_8()
    ensures
        pow256(8) == 0x1_0000_0000_0000_0000nat,
{
    reveal_with_fuel(pow256, 9);
}

/// The eight big-endian bytes of `v`, as the sequence is persisted.
pub fn encode_sequence(v: u64) -> (res: Vec<u8>)
    ensures
        res@.len() == 8,
        be_value(res@) == v as nat,
{
    let mut out: Vec<u8> = Vec::new();
    let mut x: u64 = v;
    let mut k: usize = 0;
    proof {
        assert(pow256(0) == 1);
        assert(be_value(out@) == 0);
        assert((x as nat) * 1 == x as nat);
    }
    while k < 8
        invariant
            0 <= k <= 8,
            out@.len() == k,
            v as nat == (x as nat) * pow256(k as nat) + be_value(out@),
        decreases 8 - k,
    {
        let b = (x % 256) as u8;
        let ghost old_out = out@;
        let ghost old_x = x as nat;
        x = x / 256;
        out.insert(0, b);
        proof {
            assert(out@ =~= seq![b] + old_out);
            lemma_be_value_prepend(b, old_out);
            let p = pow256(k as nat);
            assert(old_x == 256 * (x as nat) + b as nat);
            assert(old_x * p == (x as nat) * (256 * p) + (b as nat) * p) by (nonlinear_arith)
                requires old_x == 256 * (x as nat) + b as nat;
        }
        k += 1;
    }
    proof {
        lemma_pow256_8();
        lemma_be_value_bound(out@);
        let q = x as nat;
        assert(q == 0) by (nonlinear_arith)
            requires v as nat == q * 0x1_0000_0000_0000_0000nat + be_value(out@), (v as nat) < 0x1_0000_0000_0000_0000nat;
    }
    out
}

/// Decoding the persisted bytes of `v` gives `v` back.
pub proof fn law_sequence_round_trip(bytes: Seq<u8>, v: u64)
    requires
        bytes.len() == 8,
        be_value(bytes) == v as nat,
    ensures
        decoded_sequence(Some(bytes)) == Some(v as nat),
{
}

/// The range of IDs an allocator is currently handing out.
#[derive(Debug, PartialEq, Eq)]
pub struct ReservedRange {
    /// The next ID to hand out.
    pub next: u64,
    /// How many IDs of the range are left.
    pub remaining: u64,
}

/// What a request for the next short ID yields.
#[derive(Debug, PartialEq, Eq)]
pub enum Allocation {
    /// This ID is now taken.
    Issued(u64),
    /// The current range is used up: reserve a new one and install it.
    NeedsRange,
}

/// Hands out document short IDs from reserved ranges.
#[derive(Debug)]
pub struct DocShortIdAllocator {
    range: ReservedRange,
    reservation_size: u64,
}

impl DocShortIdAllocator {
    pub closed spec fn next_id(&self) -> u64 {
        self.range.next
    }

    pub closed spec fn remaining(&self) -> u64 {
        self.range.remaining
    }

    pub closed spec fn reservation_size(&self) -> u64 {
        self.reservation_size
    }

    /// An allocator with the default reservation size and no range yet.
    pub fn new() -> (res: Self)
        ensures
            res.remaining() == 0,
            res.reservation_size() == DOC_SHORT_ID_RESERVATION_SIZE,
    {
        Self::with_reservation_size(DOC_SHORT_ID_RESERVATION_SIZE)
    }

    /// An allocator reserving `reservation_size` IDs at a time, with no range yet.
    pub fn with_reservation_size(reservation_size: u64) -> (res: Self)
        requires
            reservation_size > 0,
        ensures
            res.remaining() == 0,
            res.reservation_size() == reservation_size,
    {
        DocShortIdAllocator { range: ReservedRange { next: 0, remaining: 0 }, reservation_size }
    }

    /// Takes the next ID of the current range. When the range is used up,
    /// nothing changes and `NeedsRange` asks for a new range first. Fails when
    /// the ID after the one taken would not fit in a `u64` and the range is
    /// not finished.
    pub fn next(&mut self) -> (res: Result<Allocation, Error>)
        ensures
            final(self).reservation_size() == old(self).reservation_size(),
            old(self).remaining() == 0 ==> (res matches Ok(Allocation::NeedsRange) && *final(self) == *old(self)),
            old(self).remaining() > 0 && old(self).remaining() - 1 > 0 && old(self).next_id() == u64::MAX
                ==> (res matches Err(Error::Other(m)) && m@ == exhausted_message()),
            old(self).remaining() > 0 && !(old(self).remaining() - 1 > 0 && old(self).next_id() == u64::MAX) ==> {
                &&& res matches Ok(Allocation::Issued(id))
                &&& id == old(self).next_id()
                &&& final(self).remaining() == old(self).remaining() - 1
                &&& final(self).remaining() > 0 ==> final(self).next_id() == id + 1
            },
    {
        if self.range.remaining == 0 {
            return Ok(Allocation::NeedsRange);
        }
        let id = self.range.next;
        self.range.remaining = self.range.remaining - 1;
        if self.range.remaining > 0 {
            if id == u64::MAX {
                return Err(Error::Other(String::from_str("document short-ID sequence exhausted")));
            }
            self.range.next = id + 1;
        }
        Ok(Allocation::Issued(id))
    }

    /// Installs a freshly reserved range starting at `start`.
    pub fn install_range(&mut self, start: u64)
        ensures
            final(self).next_id() == start,
            final(self).remaining() == old(self).reservation_size(),
            final(self).reservation_size() == old(self).reservation_size(),
    {
        self.range.next = start;
        self.range.remaining = self.reservation_size;
    }
}

/// Reserves `size` IDs after the persisted sequence value `current`: the range
/// is `current + 1 ..= current + size` and the sequence becomes its end.
pub fn reserve_range(current: u64, size: u64) -> (res: Result<(u64, u64), Error>)
    ensures
        current as int + size as int <= u64::MAX as int && current < u64::MAX
            ==> res == Ok::<(u64, u64), Error>(((current + 1) as u64, (current + size) as u64)),
        !(current as int + size as int <= u64::MAX as int && current < u64::MAX)
            ==> (res matches Err(Error::Other(m)) && m@ == exhausted_message()),
{
    if current == u64::MAX || size > u64::MAX - current {
        return Err(Error::Other(String::from_str("document short-ID sequence exhausted")));
    }
    Ok((current + 1, current + size))
}

/// Two reservations, the second made after the first was persisted, never
/// overlap: IDs stay unique across allocators and restarts.
pub proof fn law_reservations_disjoint(c1: u64, c2: u64, size: u64, id1: int, id2: int)
    requires
        size > 0,
        c1 as int + size as int <= u64::MAX as int,
        c2 as int >= c1 as int + size as int,
        c1 + 1 <= id1 <= c1 + size,
        c2 + 1 <= id2 <= c2 + size,
    ensures
        id1 < id2,
{
}

/// How a reservation commit came out.
#[derive(Debug)]
pub enum CommitOutcome {
    Committed,
    Conflict,
    Failed,
}

/// What a reservation does after a commit attempt.
#[derive(Debug, PartialEq, Eq)]
pub enum ReserveStep {
    /// The range is reserved.
    Done,
    /// Another writer won the race: read the sequence again and retry.
    Retry,
    /// Give up with the commit error.
    Fail,
}

/// The decision after a reservation commit, given the conflicts seen so far:
/// a conflict is retried up to `MAX_RESERVATION_CONFLICT_RETRIES` times.
pub fn reservation_step(outcome: CommitOutcome, conflicts: u32) -> (res: ReserveStep)
    ensures
        outcome is Committed ==> res is Done,
        outcome is Conflict ==> (if conflicts < MAX_RESERVATION_CONFLICT_RETRIES { res is Retry } else { res is Fail }),
        outcome is Failed ==> res is Fail,
{
    match outcome {
        CommitOutcome::Committed => ReserveStep::Done,
        CommitOutcome::Conflict => if conflicts < MAX_RESERVATION_CONFLICT_RETRIES { ReserveStep::Retry } else { ReserveStep::Fail },
        CommitOutcome::Failed => ReserveStep::Fail,
    }
}

/// The short ID a migration allocates after the persisted value `current`
/// (it also becomes the new persisted value).
pub fn next_doc_short_id(current: u64) -> (res: u64)
    requires
        current < u64::MAX,
    ensures
        res == current + 1,
{
    current + 1
}

/// The value to persist so that the sequence is at least `minimum`, or `None`
/// when it already is.
pub fn sequence_floor(current: u64, minimum: u64) -> (res: Option<u64>)
    ensures
        current < minimum ==> res == Some(minimum),
        current >= minimum ==> res is None,
{
    if current < minimum { Some(minimum) } else { None }
}

/// After the sequence is raised to at least `minimum`, the next short ID a
/// migration allocates is above `minimum` (and above the old value).
pub proof fn law_floor_keeps_ids_above(current: u64, minimum: u64)
    requires
        current < u64::MAX,
        minimum < u64::MAX,
    ensures
        ({
            let v = if current < minimum { minimum } else { current };
            v + 1 > minimum && v + 1 > current
        }),
{
}

} // verus!
