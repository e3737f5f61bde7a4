//! Grouping of source samples into the time windows of a downsample
//! collection: each sample falls into the interval-aligned bucket that holds
//! its time; a window counts the samples of its bucket, keeps the highest
//! commit height among them, and is emitted once it is complete.

use vstd::prelude::*;
use vstd::string::StringExecFns;
use crate::error::Error;
use vstd::arithmetic::div_mod::{lemma_fundamental_div_mod, lemma_mod_bound};

verus! {

/// When and how much of a source sample: its commit height, its time in
/// nanoseconds since the epoch (or the message of a time that has no such
/// representation), the end of the window it covers when the source is
/// itself a downsample collection, and the number of raw samples it stands
/// for. Its numeric values stay with the caller, which folds them over each
/// window's members.
#[derive(Debug)]
pub struct SampleTiming {
    pub height: u64,
    pub time_nanos: Result<i64, String>,
    pub coverage_end_nanos: Option<Result<i64, String>>,
    pub count: i64,
}

/// Whether the samples come from raw documents or from another downsample
/// collection.
#[derive(PartialEq, Eq, Structural, Clone, Copy, Debug)]
pub enum WindowSource {
    Raw,
    Rollup,
}

/// A complete window: its bounds, the sum of its samples' counts, the
/// highest commit height among them, and the indices of its samples.
#[derive(Debug)]
pub struct WindowTiming {
    pub start_nanos: i64,
    pub end_nanos: i64,
    pub count: i64,
    pub source_height: i64,
    pub members: Vec<usize>,
}

/// The start of the interval-aligned bucket that holds time `t`.
pub open spec fn bucket_of(t: int, interval: int) -> int {
    (t / interval) * interval
}

/// The start of the bucket that holds the time of sample `s`.
pub open spec fn sample_start(s: SampleTiming, interval: int) -> int {
    match s.time_nanos {
        Ok(t) => bucket_of(t as int, interval),
        Err(_) => 0,
    }
}

/// Why sample `s` cannot be placed, if it cannot: its time has no
/// nanosecond representation, the end of its bucket is not representable,
/// or the end of the window it covers has no nanosecond representation.
pub open spec fn sample_failure(s: SampleTiming, interval: int, interval_raw: Seq<char>) -> Option<Seq<char>> {
    match s.time_nanos {
        Err(m) => Some(m@),
        Ok(t) => if bucket_of(t as int, interval) + interval > i64::MAX {
            Some("downsample interval '"@ + interval_raw + "' overflowed a bucket boundary"@)
        } else {
            match s.coverage_end_nanos {
                Some(Err(m)) => Some(m@),
                _ => None,
            }
        },
    }
}

/// The failure of the first of the first `n` samples that cannot be placed.
pub open spec fn first_failure(samples: Seq<SampleTiming>, interval: int, interval_raw: Seq<char>, n: int) -> Option<Seq<char>>
    decreases n,
{
    if n <= 0 {
        None
    } else {
        match first_failure(samples, interval, interval_raw, n - 1) {
            Some(m) => Some(m),
            None => sample_failure(samples[n - 1], interval, interval_raw),
        }
    }
}

/// The indices, in order, of the first `n` samples that fall in bucket `b`.
pub open spec fn members_of(samples: Seq<SampleTiming>, interval: int, b: int, n: int) -> Seq<int>
    decreases n,
{
    if n <= 0 {
        Seq::empty()
    } else if sample_start(samples[n - 1], interval) == b {
        members_of(samples, interval, b, n - 1).push(n - 1)
    } else {
        members_of(samples, interval, b, n - 1)
    }
}

/// The sum of the counts of the samples at `m`.
pub open spec fn count_sum(samples: Seq<SampleTiming>, m: Seq<int>) -> int
    decreases m.len(),
{
    if m.len() == 0 { 0 } else { count_sum(samples, m.drop_last()) + samples[m.last()].count }
}

/// The highest commit height among the samples at `m` (0 for none).
pub open spec fn height_max(samples: Seq<SampleTiming>, m: Seq<int>) -> int
    decreases m.len(),
{
    if m.len() == 0 {
        0
    } else {
        let rest = height_max(samples, m.drop_last());
        let h = samples[m.last()].height as int;
        if h > rest { h } else { rest }
    }
}

/// The latest covered window end among the samples at `m`, if any has one.
pub open spec fn coverage_max(samples: Seq<SampleTiming>, m: Seq<int>) -> Option<int>
    decreases m.len(),
{
    if m.len() == 0 {
        None
    } else {
        let rest = coverage_max(samples, m.drop_last());
        match samples[m.last()].coverage_end_nanos {
            Some(Ok(c)) => match rest {
                Some(r) => Some(if (c as int) > r { c as int } else { r }),
                None => Some(c as int),
            },
            _ => rest,
        }
    }
}

/// Whether the window starting at `b` is complete: for raw samples, when it
/// ends no later than `complete_through`; for rolled-up samples, when the
/// windows they cover reach its end.
pub open spec fn window_complete(
    samples: Seq<SampleTiming>,
    interval: int,
    source: WindowSource,
    complete_through: int,
    b: int,
) -> bool {
    let m = members_of(samples, interval, b, samples.len() as int);
    match source {
        WindowSource::Raw => b + interval <= complete_through,
        WindowSource::Rollup => coverage_max(samples, m) matches Some(c) && c >= b + interval,
    }
}

/// Whether `w` is the complete window of bucket `w.start_nanos`.
pub open spec fn window_matches(
    samples: Seq<SampleTiming>,
    interval: int,
    source: WindowSource,
    complete_through: int,
    w: WindowTiming,
) -> bool {
    let m = members_of(samples, interval, w.start_nanos as int, samples.len() as int);
    &&& m.len() > 0
    &&& w.members@.map_values(|i: usize| i as int) == m
    &&& w.end_nanos == w.start_nanos + interval
    &&& w.count == count_sum(samples, m)
    &&& w.source_height == height_max(samples, m)
    &&& window_complete(samples, interval, source, complete_through, w.start_nanos as int)
}

/// Whether some complete window has a commit height beyond `i64`.
pub open spec fn height_overflows(
    samples: Seq<SampleTiming>,
    interval: int,
    source: WindowSource,
    complete_through: int,
) -> bool {
    exists|i: int| 0 <= i < samples.len() && window_complete(samples, interval, source, complete_through, #[trigger] sample_start(samples[i], interval))
        && height_max(samples, members_of(samples, interval, sample_start(samples[i], interval), samples.len() as int)) > i64::MAX
}


/// A time lies in its bucket, and the bucket's quotient lies between 0 and
/// the time.
pub proof fn lemma_bucket_bounds(t: int, interval: int)
    requires
        interval > 0,
    ensures
        bucket_of(t, interval) <= t < bucket_of(t, interval) + interval,
        t >= 0 ==> 0 <= t / interval <= t,
        t < 0 ==> t <= t / interval < 0,
{
    lemma_fundamental_div_mod(t, interval);
    lemma_mod_bound(t, interval);
    let q = t / interval;
    let r = t % interval;
    assert(q * interval == interval * q) by (nonlinear_arith);
    assert(t >= 0 ==> 0 <= q <= t) by (nonlinear_arith)
        requires
            t == interval * q + r,
            0 <= r < interval,
            interval > 0,
    ;
    assert(t < 0 ==> t <= q < 0) by (nonlinear_arith)
        requires
            t == interval * q + r,
            0 <= r < interval,
            interval > 0,
    ;
}

/// The start of the bucket that holds `timestamp_nanos`: the greatest
/// multiple of `interval_nanos` that is not after it.
pub fn bucket_start_nanos(timestamp_nanos: i64, interval_nanos: i64) -> (res: i64)
    requires
        interval_nanos > 0,
        bucket_of(timestamp_nanos as int, interval_nanos as int) >= i64::MIN,
    ensures
        res as int == bucket_of(timestamp_nanos as int, interval_nanos as int),
        res <= timestamp_nanos < res + interval_nanos,
{
    proof {
        lemma_bucket_bounds(timestamp_nanos as int, interval_nanos as int);
    }
    let q = timestamp_nanos.checked_div_euclid(interval_nanos).unwrap();
    q * interval_nanos
}

fn failure_message(m: &String) -> (res: Error)
    ensures
        res matches Error::Other(e) && e@ == m@,
{
    Error::Other(m.clone())
}

proof fn lemma_first_failure_stays(samples: Seq<SampleTiming>, interval: int, raw: Seq<char>, m: int, n: int)
    requires
        0 <= m <= n,
        first_failure(samples, interval, raw, m) is Some,
    ensures
        first_failure(samples, interval, raw, n) == first_failure(samples, interval, raw, m),
    decreases n - m,
{
    if n > m {
        lemma_first_failure_stays(samples, interval, raw, m, n - 1);
    }
}

/// Places every sample in its bucket, in order, stopping at the first that
/// cannot be placed.
fn place_samples(samples: &Vec<SampleTiming>, interval_nanos: i64, interval_raw: &str) -> (res: Result<Vec<i64>, Error>)
    requires
        interval_nanos > 0,
        forall|i: int| 0 <= i < samples@.len() ==> (#[trigger] samples@[i].time_nanos matches Ok(t)
            ==> bucket_of(t as int, interval_nanos as int) >= i64::MIN),
    ensures
        match first_failure(samples@, interval_nanos as int, interval_raw@, samples@.len() as int) {
            Some(m) => res matches Err(Error::Other(e)) && e@ == m,
            None => res matches Ok(st) && st@.len() == samples@.len()
                && forall|i: int| 0 <= i < st@.len() ==> st@[i] as int == #[trigger] sample_start(samples@[i], interval_nanos as int),
        },
{
    let mut starts: Vec<i64> = Vec::new();
    let mut i: usize = 0;
    while i < samples.len()
        invariant
            interval_nanos > 0,
            0 <= i <= samples@.len(),
            forall|k: int| 0 <= k < samples@.len() ==> (#[trigger] samples@[k].time_nanos matches Ok(t)
                ==> bucket_of(t as int, interval_nanos as int) >= i64::MIN),
            first_failure(samples@, interval_nanos as int, interval_raw@, i as int) is None,
            starts@.len() == i,
            forall|k: int| 0 <= k < i ==> starts@[k] as int == #[trigger] sample_start(samples@[k], interval_nanos as int),
        decreases samples.len() - i,
    {
        let s = &samples[i];
        let t = match &s.time_nanos {
            Ok(t) => *t,
            Err(m) => {
                proof { lemma_first_failure_stays(samples@, interval_nanos as int, interval_raw@, i + 1, samples@.len() as int); }
                return Err(failure_message(m));
            },
        };
        assert(samples@[i as int].time_nanos matches Ok(x) && x == t);
        let start = bucket_start_nanos(t, interval_nanos);
        if start.checked_add(interval_nanos).is_none() {
            proof { lemma_first_failure_stays(samples@, interval_nanos as int, interval_raw@, i + 1, samples@.len() as int); }
            return Err(Error::Other(crate::text::cat3("downsample interval '", interval_raw, "' overflowed a bucket boundary")));
        }
        match &s.coverage_end_nanos {
            Some(c) => match c {
                Err(m) => {
                    proof { lemma_first_failure_stays(samples@, interval_nanos as int, interval_raw@, i + 1, samples@.len() as int); }
                    return Err(failure_message(m));
                },
                Ok(_) => {},
            },
            None => {},
        }
        starts.push(start);
        i += 1;
    }
    Ok(starts)
}


/// Whether `x` comes after `last` (everything does when there is no last).
pub open spec fn above(x: i64, last: Option<i64>) -> bool {
    match last {
        None => true,
        Some(l) => x > l,
    }
}

/// How many of `st` come after `last`.
pub open spec fn num_above(st: Seq<i64>, last: Option<i64>) -> nat
    decreases st.len(),
{
    if st.len() == 0 {
        0
    } else {
        num_above(st.drop_last(), last) + if above(st.last(), last) { 1nat } else { 0nat }
    }
}

pub(crate) proof fn lemma_num_above_decreases(st: Seq<i64>, last: Option<i64>, c: i64)
    requires
        st.contains(c),
        above(c, last),
    ensures
        num_above(st, Some(c)) < num_above(st, last),
    decreases st.len(),
{
    lemma_num_above_mono(st.drop_last(), last, c);
    if st.last() != c {
        let k = choose|k: int| 0 <= k < st.len() && st[k] == c;
        assert(st.drop_last()[k] == c);
        lemma_num_above_decreases(st.drop_last(), last, c);
    }
}

proof fn lemma_num_above_mono(st: Seq<i64>, last: Option<i64>, c: i64)
    requires
        above(c, last),
    ensures
        num_above(st, Some(c)) <= num_above(st, last),
    decreases st.len(),
{
    if st.len() > 0 {
        lemma_num_above_mono(st.drop_last(), last, c);
    }
}

/// The earliest bucket start after `last`.
pub(crate) fn next_bucket(st: &Vec<i64>, last: Option<i64>) -> (res: Option<i64>)
    ensures
        match res {
            Some(c) => st@.contains(c) && above(c, last)
                && forall|k: int| 0 <= k < st@.len() && above(#[trigger] st@[k], last) ==> c <= st@[k],
            None => forall|k: int| 0 <= k < st@.len() ==> !above(#[trigger] st@[k], last),
        },
{
    let mut best: Option<i64> = None;
    let mut i: usize = 0;
    while i < st.len()
        invariant
            0 <= i <= st@.len(),
            match best {
                Some(c) => st@.contains(c) && above(c, last)
                    && forall|k: int| 0 <= k < i && above(#[trigger] st@[k], last) ==> c <= st@[k],
                None => forall|k: int| 0 <= k < i ==> !above(#[trigger] st@[k], last),
            },
        decreases st.len() - i,
    {
        let x = st[i];
        let is_above = match last {
            None => true,
            Some(l) => x > l,
        };
        if is_above {
            match best {
                None => {
                    best = Some(x);
                },
                Some(c) => {
                    if x < c {
                        best = Some(x);
                    }
                },
            }
        }
        i += 1;
    }
    best
}

proof fn lemma_no_failure_each(samples: Seq<SampleTiming>, interval: int, raw: Seq<char>, n: int, i: int)
    requires
        0 <= i < n,
        first_failure(samples, interval, raw, n) is None,
    ensures
        sample_failure(samples[i], interval, raw) is None,
    decreases n,
{
    if i < n - 1 {
        lemma_no_failure_each(samples, interval, raw, n - 1, i);
    }
}

proof fn lemma_members_nonempty(samples: Seq<SampleTiming>, interval: int, b: int, n: int, i: int)
    requires
        0 <= i < n,
        sample_start(samples[i], interval) == b,
    ensures
        members_of(samples, interval, b, n).len() > 0,
    decreases n,
{
    if i < n - 1 {
        lemma_members_nonempty(samples, interval, b, n - 1, i);
    }
}

/// The samples of bucket `b`: their indices, the sum of their counts, the
/// highest height and the latest covered window end.
fn collect_window(samples: &Vec<SampleTiming>, starts: &Vec<i64>, interval_nanos: i64, b: i64)
    -> (res: (Vec<usize>, i64, u64, Option<i64>))
    requires
        starts@.len() == samples@.len(),
        forall|i: int| 0 <= i < starts@.len() ==> starts@[i] as int == #[trigger] sample_start(samples@[i], interval_nanos as int),
        forall|n: int| 0 <= n <= samples@.len() ==> i64::MIN <= #[trigger] count_sum(samples@, members_of(samples@, interval_nanos as int, b as int, n)) <= i64::MAX,
    ensures
        res.0@.map_values(|i: usize| i as int) == members_of(samples@, interval_nanos as int, b as int, samples@.len() as int),
        res.1 == count_sum(samples@, members_of(samples@, interval_nanos as int, b as int, samples@.len() as int)),
        res.2 == height_max(samples@, members_of(samples@, interval_nanos as int, b as int, samples@.len() as int)),
        res.3 == (match coverage_max(samples@, members_of(samples@, interval_nanos as int, b as int, samples@.len() as int)) {
            Some(c) => Some(c as i64),
            None => None::<i64>,
        }),
        forall|c: int| coverage_max(samples@, members_of(samples@, interval_nanos as int, b as int, samples@.len() as int)) == Some(c)
            ==> i64::MIN <= c <= i64::MAX,
{
    let ghost iv = interval_nanos as int;
    let mut members: Vec<usize> = Vec::new();
    let mut count: i64 = 0;
    let mut height: u64 = 0;
    let mut coverage: Option<i64> = None;
    let mut i: usize = 0;
    assert(members@.map_values(|k: usize| k as int) =~= Seq::<int>::empty());
    while i < samples.len()
        invariant
            0 <= i <= samples@.len(),
            starts@.len() == samples@.len(),
            forall|k: int| 0 <= k < starts@.len() ==> starts@[k] as int == #[trigger] sample_start(samples@[k], iv),
            forall|n: int| 0 <= n <= samples@.len() ==> i64::MIN <= #[trigger] count_sum(samples@, members_of(samples@, iv, b as int, n)) <= i64::MAX,
            iv == interval_nanos as int,
            members@.map_values(|k: usize| k as int) == members_of(samples@, iv, b as int, i as int),
            count == count_sum(samples@, members_of(samples@, iv, b as int, i as int)),
            height == height_max(samples@, members_of(samples@, iv, b as int, i as int)),
            coverage == (match coverage_max(samples@, members_of(samples@, iv, b as int, i as int)) {
                Some(c) => Some(c as i64),
                None => None::<i64>,
            }),
            forall|c: int| coverage_max(samples@, members_of(samples@, iv, b as int, i as int)) == Some(c) ==> i64::MIN <= c <= i64::MAX,
        decreases samples.len() - i,
    {
        if starts[i] == b {
            let ghost m = members_of(samples@, iv, b as int, i as int);
            let ghost m2 = members_of(samples@, iv, b as int, i + 1);
            assert(m2 == m.push(i as int));
            assert(m2.drop_last() =~= m);
            assert(count_sum(samples@, members_of(samples@, iv, b as int, i + 1)) == count_sum(samples@, m) + samples@[i as int].count);
            let ghost before = members@;
            members.push(i);
            assert(members@.map_values(|k: usize| k as int) =~= before.map_values(|k: usize| k as int).push(i as int));
            count = count + samples[i].count;
            if samples[i].height > height {
                height = samples[i].height;
            }
            match &samples[i].coverage_end_nanos {
                Some(c) => match c {
                    Ok(c) => {
                        coverage = match coverage {
                            Some(cur) => Some(if *c > cur { *c } else { cur }),
                            None => Some(*c),
                        };
                    },
                    Err(_) => {},
                },
                None => {},
            }
        }
        i += 1;
    }
    (members, count, height, coverage)
}

/// Whether `ws` are exactly the complete windows of `samples`, in order of
/// their start.
pub open spec fn windows_described(
    samples: Seq<SampleTiming>,
    interval: int,
    source: WindowSource,
    complete_through: int,
    ws: Seq<WindowTiming>,
) -> bool {
    &&& forall|k: int| 0 <= k < ws.len() ==> window_matches(samples, interval, source, complete_through, #[trigger] ws[k])
    &&& forall|j: int, k: int| 0 <= j < k < ws.len() ==> ws[j].start_nanos < ws[k].start_nanos
    &&& forall|i: int| 0 <= i < samples.len()
        && window_complete(samples, interval, source, complete_through, #[trigger] sample_start(samples[i], interval))
        ==> exists|k: int| 0 <= k < ws.len() && ws[k].start_nanos as int == sample_start(samples[i], interval)
}

/// Groups `samples` into windows of `interval_nanos`, in order of their
/// start, keeping only complete windows (see `window_complete`); the caller
/// folds each window's numeric values over its members, in order.
pub fn aggregate_samples_into_windows(
    samples: &Vec<SampleTiming>,
    interval_nanos: i64,
    interval_raw: &str,
    source: WindowSource,
    complete_through_nanos: i64,
) -> (res: Result<Vec<WindowTiming>, Error>)
    requires
        interval_nanos > 0,
        forall|i: int| 0 <= i < samples@.len() ==> (#[trigger] samples@[i].time_nanos matches Ok(t)
            ==> bucket_of(t as int, interval_nanos as int) >= i64::MIN),
        forall|b: int, n: int| 0 <= n <= samples@.len() ==> i64::MIN <= #[trigger] count_sum(samples@, members_of(samples@, interval_nanos as int, b, n)) <= i64::MAX,
    ensures
        match first_failure(samples@, interval_nanos as int, interval_raw@, samples@.len() as int) {
            Some(m) => res matches Err(Error::Other(e)) && e@ == m,
            None => if height_overflows(samples@, interval_nanos as int, source, complete_through_nanos as int) {
                res matches Err(Error::Other(e)) && e@ == "downsample source height exceeded i64"@
            } else {
                res matches Ok(ws) && windows_described(samples@, interval_nanos as int, source, complete_through_nanos as int, ws@)
            },
        },
{
    let starts = match place_samples(samples, interval_nanos, interval_raw) {
        Ok(st) => st,
        Err(e) => {
            return Err(e);
        },
    };
    let ghost iv = interval_nanos as int;
    let ghost ct = complete_through_nanos as int;
    let mut out: Vec<WindowTiming> = Vec::new();
    let mut last: Option<i64> = None;
    loop
        invariant
            interval_nanos > 0,
            iv == interval_nanos as int,
            ct == complete_through_nanos as int,
            first_failure(samples@, iv, interval_raw@, samples@.len() as int) is None,
            starts@.len() == samples@.len(),
            forall|i: int| 0 <= i < starts@.len() ==> starts@[i] as int == #[trigger] sample_start(samples@[i], iv),
            forall|b: int, n: int| 0 <= n <= samples@.len() ==> i64::MIN <= #[trigger] count_sum(samples@, members_of(samples@, iv, b, n)) <= i64::MAX,
            forall|k: int| 0 <= k < out@.len() ==> window_matches(samples@, iv, source, ct, #[trigger] out@[k]),
            forall|j: int, k: int| 0 <= j < k < out@.len() ==> out@[j].start_nanos < out@[k].start_nanos,
            forall|k: int| 0 <= k < out@.len() ==> !above(#[trigger] out@[k].start_nanos, last),
            last is None ==> out@.len() == 0,
            forall|i: int| 0 <= i < starts@.len() && !above(#[trigger] starts@[i], last)
                && window_complete(samples@, iv, source, ct, starts@[i] as int)
                ==> exists|k: int| 0 <= k < out@.len() && out@[k].start_nanos == starts@[i],
        ensures
            forall|k: int| 0 <= k < starts@.len() ==> !above(#[trigger] starts@[k], last),
        decreases num_above(starts@, last),
    {
        let cur = match next_bucket(&starts, last) {
            Some(c) => c,
            None => {
                break;
            },
        };
        proof {
            lemma_num_above_decreases(starts@, last, cur);
        }
        let ghost wi = choose|i: int| 0 <= i < starts@.len() && starts@[i] == cur;
        proof {
            lemma_members_nonempty(samples@, iv, cur as int, samples@.len() as int, wi);
            lemma_no_failure_each(samples@, iv, interval_raw@, samples@.len() as int, wi);
        }
        let (members, count, height, coverage) = collect_window(samples, &starts, interval_nanos, cur);
        let end = cur + interval_nanos;
        let complete = match source {
            WindowSource::Raw => end <= complete_through_nanos,
            WindowSource::Rollup => match coverage {
                Some(c) => c >= end,
                None => false,
            },
        };
        if complete {
            if height > 9223372036854775807u64 {
                proof {
                    assert(sample_start(samples@[wi], iv) == cur as int);
                    assert(window_complete(samples@, iv, source, ct, sample_start(samples@[wi], iv)));
                }
                return Err(Error::Other(String::from_str("downsample source height exceeded i64")));
            }
            let ghost before = out@;
            let w = WindowTiming { start_nanos: cur, end_nanos: end, count, source_height: height as i64, members };
            assert(window_matches(samples@, iv, source, ct, w));
            out.push(w);
            proof {
                assert(out@[out@.len() - 1].start_nanos == cur);
                assert forall|i: int| 0 <= i < starts@.len() && !above(#[trigger] starts@[i], Some(cur))
                    && window_complete(samples@, iv, source, ct, starts@[i] as int)
                    implies exists|k: int| 0 <= k < out@.len() && out@[k].start_nanos == starts@[i] by {
                    if starts@[i] == cur {
                        assert(out@[out@.len() - 1].start_nanos == starts@[i]);
                    } else {
                        let k = choose|k: int| 0 <= k < before.len() && before[k].start_nanos == starts@[i];
                        assert(out@[k] == before[k]);
                    }
                }
            }
        } else {
            proof {
                assert forall|i: int| 0 <= i < starts@.len() && !above(#[trigger] starts@[i], Some(cur))
                    && window_complete(samples@, iv, source, ct, starts@[i] as int)
                    implies exists|k: int| 0 <= k < out@.len() && out@[k].start_nanos == starts@[i] by {
                    assert(starts@[i] != cur);
                }
            }
        }
        last = Some(cur);
    }
    proof {
        assert forall|i: int| 0 <= i < samples@.len()
            && window_complete(samples@, iv, source, ct, #[trigger] sample_start(samples@[i], iv))
            implies exists|k: int| 0 <= k < out@.len() && out@[k].start_nanos as int == sample_start(samples@[i], iv) by {
            assert(!above(starts@[i], last));
        }
        if height_overflows(samples@, iv, source, ct) {
            let i = choose|i: int| 0 <= i < samples@.len() && window_complete(samples@, iv, source, ct, #[trigger] sample_start(samples@[i], iv))
                && height_max(samples@, members_of(samples@, iv, sample_start(samples@[i], iv), samples@.len() as int)) > i64::MAX;
            assert(!above(starts@[i], last));
            let k = choose|k: int| 0 <= k < out@.len() && out@[k].start_nanos == starts@[i];
            assert(window_matches(samples@, iv, source, ct, out@[k]));
        }
        assert(windows_described(samples@, iv, source, ct, out@));
    }
    Ok(out)
}


/// Windows of raw samples are emitted only once they are over: every window
/// described for raw samples spans one interval and ends no later than
/// `complete_through`.
pub proof fn law_raw_windows_end_by_complete_through(
    samples: Seq<SampleTiming>,
    interval: int,
    complete_through: int,
    ws: Seq<WindowTiming>,
)
    requires
        windows_described(samples, interval, WindowSource::Raw, complete_through, ws),
    ensures
        forall|k: int| 0 <= k < ws.len() ==> (#[trigger] ws[k]).end_nanos <= complete_through
            && ws[k].end_nanos - ws[k].start_nanos == interval,
{
    assert forall|k: int| 0 <= k < ws.len() implies (#[trigger] ws[k]).end_nanos <= complete_through
        && ws[k].end_nanos - ws[k].start_nanos == interval by {
        assert(window_matches(samples, interval, WindowSource::Raw, complete_through, ws[k]));
    }
}

} // verus!
