//! Downsampling arithmetic: commit heights stored as varints, the aggregate
//! fields a downsample collection can define, Go-style interval durations,
//! and the time buckets samples fall into.

use vstd::prelude::*;
use vstd::string::StringExecFns;
use vstd::string::StrSliceExecFns;
use crate::text::{cat2, cat3, chars_of, str_eq, trim, trim_spec};

verus! {

/// The value of a little-endian base-128 varint read from `buf[i..]`, with
/// `acc` holding the bits read so far at `shift`. Reading past 64 bits gives
/// 0; a buffer that ends mid-varint gives the bits read.
pub open spec fn varint_from(buf: Seq<u8>, i: int, shift: u64, acc: u64) -> u64
    decreases buf.len() - i,
{
    if i >= buf.len() || i < 0 {
        acc
    } else if shift >= 64 {
        0
    } else {
        let next = acc | (((buf[i] & 0x7f) as u64) << shift);
        if buf[i] < 0x80 { next } else { varint_from(buf, i + 1, (shift + 7) as u64, next) }
    }
}

/// Decodes the commit priority stored (as an unsigned varint) in a head entry.
pub fn decode_priority_varint(buf: &[u8]) -> (res: u64)
    ensures
        res == varint_from(buf@, 0, 0, 0),
{
    let mut value: u64 = 0;
    let mut shift: u64 = 0;
    let mut i: usize = 0;
    while i < buf.len()
        invariant
            0 <= i <= buf.len(),
            shift < 64 + 7,
            varint_from(buf@, 0, 0, 0) == varint_from(buf@, i as int, shift, value),
        decreases buf.len() - i,
    {
        if shift >= 64 {
            return 0;
        }
        let byte = buf[i];
        value = value | (((byte & 0x7f) as u64) << shift);
        if byte < 0x80 {
            return value;
        }
        shift = shift + 7;
        i += 1;
    }
    value
}

/// The unsigned LEB128 encoding of `v`: seven bits per byte, low group
/// first, the top bit set on every byte but the last.
pub open spec fn leb128(v: u64) -> Seq<u8>
    decreases v,
{
    if v < 128 {
        seq![v as u8]
    } else {
        proof {
            assert(v >= 128 ==> (v >> 7u64) < v) by (bit_vector);
        }
        seq![((v & 0x7fu64) | 0x80u64) as u8] + leb128(v >> 7u64)
    }
}

proof fn lemma_varint_reads(buf: Seq<u8>, i: int, v: u64, s: u64)
    requires
        0 <= i,
        s <= 63,
        i + leb128(v >> s).len() <= buf.len(),
        buf.subrange(i, i + leb128(v >> s).len()) == leb128(v >> s),
    ensures
        varint_from(buf, i, s, v & !(0xffff_ffff_ffff_ffffu64 << s)) == v,
    decreases buf.len() - i,
{
    let w = v >> s;
        assert(buf[i] == buf.subrange(i, i + leb128(w).len())[0]);
    if w < 128 {
        assert(leb128(w)[0] == w as u8);
        assert(s <= 63 && (v >> s) < 128 ==> ((((v >> s) as u8) < 0x80u8)
            && ((v & !(0xffff_ffff_ffff_ffffu64 << s)) | (((((v >> s) as u8) & 0x7fu8) as u64) << s)) == v)) by (bit_vector);
    } else {
        let b = ((w & 0x7fu64) | 0x80u64) as u8;
        assert(leb128(w)[0] == b);
        assert(s <= 63 && (v >> s) >= 128 ==> (s + 7 <= 63
            && ((((v >> s) & 0x7fu64) | 0x80u64) as u8) >= 0x80u8
            && ((v & !(0xffff_ffff_ffff_ffffu64 << s)) | ((((((((v >> s) & 0x7fu64) | 0x80u64) as u8)) & 0x7fu8) as u64) << s))
                == v & !(0xffff_ffff_ffff_ffffu64 << ((s + 7) as u64))
            && ((v >> s) >> 7u64) == v >> ((s + 7) as u64))) by (bit_vector);
        let s2 = (s + 7) as u64;
        let rest = leb128(w >> 7u64);
        assert(leb128(w) == seq![b] + rest);
        assert(buf.subrange(i + 1, i + 1 + rest.len()) =~= buf.subrange(i, i + leb128(w).len()).subrange(1, 1 + rest.len() as int));
        assert(buf.subrange(i + 1, i + 1 + rest.len()) =~= rest);
        lemma_varint_reads(buf, i + 1, v, s2);
    }
}

/// A priority stored as the LEB128 encoding of a value reads back as that
/// value, whatever bytes follow the encoding.
pub proof fn law_priority_varint_round_trip(v: u64, rest: Seq<u8>)
    ensures
        varint_from(leb128(v) + rest, 0, 0, 0) == v,
{
    let buf = leb128(v) + rest;
    assert(buf.subrange(0, leb128(v).len() as int) =~= leb128(v));
    assert((v >> 0u64) == v && (v & !(0xffff_ffff_ffff_ffffu64 << 0u64)) == 0) by (bit_vector);
    lemma_varint_reads(buf, 0, v, 0);
}

/// The aggregates a downsample collection can define.
#[derive(PartialEq, Eq, Structural, Clone, Copy, Debug)]
pub enum AggregateField {
    Count,
    Sum,
    Avg,
    Min,
    Max,
}

/// Every supported aggregate, in the order they are considered.
pub fn supported_downsample_aggregate_fields() -> (res: [AggregateField; 5])
    ensures
        res@ == seq![AggregateField::Count, AggregateField::Sum, AggregateField::Avg, AggregateField::Min, AggregateField::Max],
{
    let res = [AggregateField::Count, AggregateField::Sum, AggregateField::Avg, AggregateField::Min, AggregateField::Max];
    assert(res@ =~= seq![AggregateField::Count, AggregateField::Sum, AggregateField::Avg, AggregateField::Min, AggregateField::Max]);
    res
}

/// The field name an aggregate is stored under.
pub open spec fn aggregate_name(f: AggregateField) -> Seq<char> {
    match f {
        AggregateField::Count => "count"@,
        AggregateField::Sum => "sum"@,
        AggregateField::Avg => "avg"@,
        AggregateField::Min => "min"@,
        AggregateField::Max => "max"@,
    }
}

/// The field name an aggregate is stored under.
pub fn aggregate_field_name(field: AggregateField) -> (res: &'static str)
    ensures
        res@ == aggregate_name(field),
{
    match field {
        AggregateField::Count => "count",
        AggregateField::Sum => "sum",
        AggregateField::Avg => "avg",
        AggregateField::Min => "min",
        AggregateField::Max => "max",
    }
}

// ---------------------------------------------------------------------------
// Go-style durations
// ---------------------------------------------------------------------------

/// Whether `c` is an ASCII digit.
pub open spec fn is_digit(c: char) -> bool {
    '0' <= c && c <= '9'
}

/// Whether `c` may appear in the number of a duration segment.
pub open spec fn is_num_char(c: char) -> bool {
    is_digit(c) || c == '.'
}

/// Whether every character of `s` is an ASCII digit.
pub open spec fn all_digits(s: Seq<char>) -> bool {
    forall|i: int| 0 <= i < s.len() ==> is_digit(#[trigger] s[i])
}

/// The value of a string of decimal digits.
pub open spec fn dec_value(s: Seq<char>) -> nat
    decreases s.len(),
{
    if s.len() == 0 { 0 } else { dec_value(s.drop_last()) * 10 + ((s.last() as nat) - ('0' as nat)) as nat }
}

/// Length of the longest prefix of `r` whose characters satisfy `num` (when
/// `num`) or fail `is_num_char` (when not `num`).
pub open spec fn span(r: Seq<char>, num: bool) -> nat
    decreases r.len(),
{
    if r.len() > 0 && is_num_char(r[0]) == num { 1 + span(r.drop_first(), num) } else { 0 }
}

/// A span never runs past the end of the sequence.
pub proof fn lemma_span_bound(r: Seq<char>, num: bool)
    ensures
        span(r, num) <= r.len(),
    decreases r.len(),
{
    if r.len() > 0 {
        lemma_span_bound(r.drop_first(), num);
    }
}

/// The value of the decimal digit `c`.
fn digit_of(c: char) -> (d: i64)
    requires
        is_digit(c),
    ensures
        d as int == (c as int) - ('0' as int),
{
    if c == '0' { 0 } else if c == '1' { 1 } else if c == '2' { 2 } else if c == '3' { 3 } else if c == '4' { 4 }
    else if c == '5' { 5 } else if c == '6' { 6 } else if c == '7' { 7 } else if c == '8' { 8 } else { 9 }
}

/// One `<number><unit>` segment of a duration.
#[derive(Debug, PartialEq, Eq)]
pub struct DurationSegment {
    pub number: String,
    pub unit: String,
}

/// The segments of a duration body, and the structural error that ended the
/// scan, if any (it applies only after the segments before it).
pub open spec fn segments(r: Seq<char>, whole: Seq<char>) -> (Seq<(Seq<char>, Seq<char>)>, Option<Seq<char>>)
    decreases r.len(),
{
    if r.len() == 0 {
        (Seq::empty(), None)
    } else {
        let n = span(r, true);
        let rest = r.skip(n as int);
        let u = span(rest, false);
        proof {
            lemma_span_bound(r, true);
            lemma_span_bound(rest, false);
        }
        if n == 0 {
            (Seq::empty(), Some("invalid duration: "@ + whole))
        } else if u == 0 {
            (Seq::empty(), Some("missing unit in duration: "@ + whole))
        } else {
            let tail = segments(rest.skip(u as int), whole);
            (seq![(r.take(n as int), rest.take(u as int))] + tail.0, tail.1)
        }
    }
}

/// A duration as far as it is decided without floating point.
#[derive(Debug, PartialEq, Eq)]
pub enum DurationSyntax {
    /// The whole duration, in nanoseconds.
    Whole(i64),
    /// A sequence of `<number><unit>` segments to be summed (numbers may be
    /// fractional), negated when `negative`; `trailing_error` is reported
    /// after the segments, if none of them fails first.
    Segments { negative: bool, parts: Vec<DurationSegment>, trailing_error: Option<String>, whole: String },
}

/// The sign and body of a trimmed duration.
pub open spec fn signed_body(t: Seq<char>) -> (bool, Seq<char>) {
    if t.len() > 0 && t[0] == '-' { (true, t.drop_first()) } else if t.len() > 0 && t[0] == '+' { (false, t.drop_first()) } else { (false, t) }
}

/// Whether `res` is the parse of the Go-style duration `s`: empty or `0`
/// mean zero; a (signed) run of digits is whole seconds; anything else is a
/// list of `<number><unit>` segments.
pub open spec fn duration_parsed(s: Seq<char>, res: Result<DurationSyntax, String>) -> bool {
    let t = trim_spec(s);
    let (neg, body) = signed_body(t);
    if t.len() == 0 || t == "0"@ {
        res matches Ok(DurationSyntax::Whole(v)) && v == 0
    } else if all_digits(body) {
        if body.len() == 0 || dec_value(body) > i64::MAX as nat {
            res matches Err(m) && m@ == "invalid number: "@ + body
        } else if dec_value(body) * 1_000_000_000 > i64::MAX as nat {
            res matches Err(m) && m@ == "duration overflow: "@ + body
        } else {
            res matches Ok(DurationSyntax::Whole(v))
                && v as int == (if neg { -(dec_value(body) * 1_000_000_000) } else { (dec_value(body) * 1_000_000_000) as int })
        }
    } else {
        let (parts, err) = segments(body, body);
        res matches Ok(DurationSyntax::Segments { negative, parts: ps, trailing_error, whole })
            && negative == neg && whole@ == body
            && ps@.len() == parts.len()
            && (forall|i: int| 0 <= i < parts.len() ==> (#[trigger] ps@[i]).number@ == parts[i].0 && ps@[i].unit@ == parts[i].1)
            && (match err { None => trailing_error is None, Some(e) => trailing_error matches Some(m) && m@ == e })
    }
}

fn parse_digits(cs: &Vec<char>) -> (res: Option<i64>)
    requires
        all_digits(cs@),
    ensures
        cs@.len() > 0 && dec_value(cs@) <= i64::MAX as nat ==> res == Some(dec_value(cs@) as i64),
        !(cs@.len() > 0 && dec_value(cs@) <= i64::MAX as nat) ==> res is None,
{
    if cs.len() == 0 {
        return None;
    }
    let mut v: i64 = 0;
    let mut i: usize = 0;
    while i < cs.len()
        invariant
            all_digits(cs@),
            0 <= i <= cs.len(),
            v >= 0,
            v as nat == dec_value(cs@.take(i as int)),
        decreases cs.len() - i,
    {
        assert(cs@.take(i + 1).drop_last() =~= cs@.take(i as int));
        assert(is_digit(cs@[i as int]));
        let d = digit_of(cs[i]);
        if v > (i64::MAX - d) / 10 {
            proof { lemma_dec_value_mono(cs@, i as int + 1); }
            return None;
        }
        v = v * 10 + d;
        i += 1;
    }
    assert(cs@.take(cs.len() as int) =~= cs@);
    Some(v)
}

/// A prefix of a digit string has no greater value.
pub proof fn lemma_dec_value_mono(s: Seq<char>, n: int)
    requires
        all_digits(s),
        0 <= n <= s.len(),
    ensures
        dec_value(s.take(n)) <= dec_value(s),
    decreases s.len() - n,
{
    if n < s.len() {
        lemma_dec_value_mono(s.drop_last(), n);
        assert(s.drop_last().take(n) =~= s.take(n));
        assert(all_digits(s.drop_last()));
    } else {
        assert(s.take(n) =~= s);
    }
}


/// `span` is the index of the first character that breaks the run.
proof fn lemma_span_exact(r: Seq<char>, num: bool, m: int)
    requires
        0 <= m <= r.len(),
        forall|k: int| 0 <= k < m ==> is_num_char(#[trigger] r[k]) == num,
        m == r.len() || is_num_char(r[m]) != num,
    ensures
        span(r, num) == m,
    decreases m,
{
    if m > 0 {
        assert forall|k: int| 0 <= k < m - 1 implies is_num_char(#[trigger] r.drop_first()[k]) == num by {
            assert(r.drop_first()[k] == r[k + 1]);
        }
        lemma_span_exact(r.drop_first(), num, m - 1);
    }
}

/// The end of the run of characters starting at `from` whose `is_num_char`
/// equals `num`.
fn scan_run(cs: &Vec<char>, from: usize, num: bool) -> (end: usize)
    requires
        from <= cs.len(),
    ensures
        from <= end <= cs.len(),
        end - from == span(cs@.subrange(from as int, cs.len() as int), num),
{
    let mut i = from;
    while i < cs.len() && ((cs[i] >= '0' && cs[i] <= '9') || cs[i] == '.') == num
        invariant
            from <= i <= cs.len(),
            forall|k: int| from <= k < i ==> is_num_char(#[trigger] cs@[k]) == num,
        decreases cs.len() - i,
    {
        i += 1;
    }
    proof {
        let r = cs@.subrange(from as int, cs.len() as int);
        assert forall|k: int| 0 <= k < i - from implies is_num_char(#[trigger] r[k]) == num by {
            assert(r[k] == cs@[k + from]);
        }
        if i < cs.len() {
            assert(r[i - from] == cs@[i as int]);
        }
        lemma_span_exact(r, num, i - from);
    }
    i
}

/// Whether every character of `cs` is an ASCII digit.
fn all_digit_chars(cs: &Vec<char>) -> (res: bool)
    ensures
        res == all_digits(cs@),
{
    let mut i: usize = 0;
    while i < cs.len()
        invariant
            0 <= i <= cs.len(),
            forall|k: int| 0 <= k < i ==> is_digit(#[trigger] cs@[k]),
        decreases cs.len() - i,
    {
        if !(cs[i] >= '0' && cs[i] <= '9') {
            return false;
        }
        i += 1;
    }
    true
}

/// Parses a Go-style duration (`"90s"`, `"1h30m"`, `"-1.5h"`, or a bare
/// number of seconds) as far as it can be decided without floating point:
/// zero and whole seconds come out as nanoseconds, anything else as the
/// list of segments to be evaluated, with the structural error (if any)
/// that the scan stopped on.
pub fn parse_go_duration(s: &str) -> (res: Result<DurationSyntax, String>)
    ensures
        duration_parsed(s@, res),
{
    let t = trim(s);
    let tc = chars_of(t.as_str());
    proof {
        reveal_strlit("0");
    }
    if tc.len() == 0 || (tc.len() == 1 && tc[0] == '0') {
        proof {
            if tc.len() == 1 {
                assert(t@ =~= "0"@);
            }
        }
        return Ok(DurationSyntax::Whole(0));
    }
    assert(t@ != "0"@) by {
        if t@ == "0"@ {
            assert(t@[0] == '0');
        }
    }
    let neg: bool;
    let start: usize;
    if tc[0] == '-' {
        neg = true;
        start = 1;
    } else if tc[0] == '+' {
        neg = false;
        start = 1;
    } else {
        neg = false;
        start = 0;
    }
    let body = t.as_str().substring_char(start, tc.len());
    let bc = chars_of(body);
    proof {
        if start == 1 {
            assert(body@ =~= t@.drop_first());
        } else {
            assert(body@ =~= t@);
        }
        assert(signed_body(trim_spec(s@)) == (neg, body@));
    }
    if all_digit_chars(&bc) {
        match parse_digits(&bc) {
            Option::None => {
                return Err(cat2("invalid number: ", body));
            },
            Option::Some(secs) => {
                match secs.checked_mul(1_000_000_000) {
                    Option::None => {
                        return Err(cat2("duration overflow: ", body));
                    },
                    Option::Some(n) => {
                        return Ok(DurationSyntax::Whole(if neg { -n } else { n }));
                    },
                }
            },
        }
    }
    let ghost whole = body@;
    let mut parts: Vec<DurationSegment> = Vec::new();
    let ghost mut acc: Seq<(Seq<char>, Seq<char>)> = Seq::empty();
    let mut trailing: Option<String> = Option::None;
    let mut p: usize = 0;
    proof {
        assert(whole.subrange(0, whole.len() as int) =~= whole);
        assert(Seq::<(Seq<char>, Seq<char>)>::empty() + segments(whole, whole).0 =~= segments(whole, whole).0);
    }
    while p < bc.len()
        invariant_except_break
            trailing is None,
        invariant
            bc@ == whole,
            body@ == whole,
            0 <= p <= bc.len(),
            parts@.len() == acc.len(),
            forall|i: int| 0 <= i < acc.len() ==> (#[trigger] parts@[i]).number@ == acc[i].0 && parts@[i].unit@ == acc[i].1,
            trailing is None ==> segments(whole, whole) == (
                acc + segments(whole.subrange(p as int, whole.len() as int), whole).0,
                segments(whole.subrange(p as int, whole.len() as int), whole).1,
            ),
        ensures
            parts@.len() == acc.len(),
            forall|i: int| 0 <= i < acc.len() ==> (#[trigger] parts@[i]).number@ == acc[i].0 && parts@[i].unit@ == acc[i].1,
            segments(whole, whole).0 == acc,
            match segments(whole, whole).1 {
                Option::None => trailing is None,
                Option::Some(e) => trailing matches Option::Some(m) && m@ == e,
            },
        decreases bc.len() - p,
    {
        let ghost rest = whole.subrange(p as int, whole.len() as int);
        let q = scan_run(&bc, p, true);
        if q == p {
            proof {
                assert(segments(rest, whole) == (Seq::<(Seq<char>, Seq<char>)>::empty(), Some("invalid duration: "@ + whole)));
                assert(acc + Seq::<(Seq<char>, Seq<char>)>::empty() =~= acc);
            }
            trailing = Option::Some(cat2("invalid duration: ", body));
            break;
        }
        let r = scan_run(&bc, q, false);
        proof {
            assert(rest.skip(q - p) =~= whole.subrange(q as int, whole.len() as int));
        }
        if r == q {
            proof {
                assert(acc + Seq::<(Seq<char>, Seq<char>)>::empty() =~= acc);
            }
            trailing = Option::Some(cat2("missing unit in duration: ", body));
            break;
        }
        let number = String::from_str(body.substring_char(p, q));
        let unit = String::from_str(body.substring_char(q, r));
        proof {
            let rest2 = whole.subrange(q as int, whole.len() as int);
            assert(rest2.skip(r - q) =~= whole.subrange(r as int, whole.len() as int));
            assert(rest.take(q - p) =~= number@);
            assert(rest2.take(r - q) =~= unit@);
            let tail = segments(whole.subrange(r as int, whole.len() as int), whole);
            assert(acc + (seq![(number@, unit@)] + tail.0) =~= acc.push((number@, unit@)) + tail.0);
            acc = acc.push((number@, unit@));
        }
        parts.push(DurationSegment { number, unit });
        p = r;
    }
    proof {
        if trailing is None {
            assert(whole.subrange(bc.len() as int, whole.len() as int).len() == 0);
            assert(acc + Seq::<(Seq<char>, Seq<char>)>::empty() =~= acc);
        }
    }
    Ok(DurationSyntax::Segments { negative: neg, parts, trailing_error: trailing, whole: String::from_str(body) })
}

/// The number of nanoseconds in one duration unit.
pub open spec fn unit_scale(u: Seq<char>) -> Option<i64> {
    if u == "ns"@ {
        Some(1)
    } else if u == "us"@ || u == "\u{b5}s"@ || u == "\u{3bc}s"@ {
        Some(1_000)
    } else if u == "ms"@ {
        Some(1_000_000)
    } else if u == "s"@ {
        Some(1_000_000_000)
    } else if u == "m"@ {
        Some(60_000_000_000)
    } else if u == "h"@ {
        Some(3_600_000_000_000)
    } else {
        None
    }
}

/// The number of nanoseconds in one `unit` of a duration, or the error a
/// duration with an unknown unit is rejected with.
pub fn unit_nanos(unit: &str) -> (res: Result<i64, String>)
    ensures
        match unit_scale(unit@) {
            Some(v) => res == Ok::<i64, String>(v),
            None => res matches Err(m) && m@ == "unknown unit in duration: "@ + unit@,
        },
{
    if str_eq(unit, "ns") {
        Ok(1)
    } else if str_eq(unit, "us") || str_eq(unit, "\u{b5}s") || str_eq(unit, "\u{3bc}s") {
        Ok(1_000)
    } else if str_eq(unit, "ms") {
        Ok(1_000_000)
    } else if str_eq(unit, "s") {
        Ok(1_000_000_000)
    } else if str_eq(unit, "m") {
        Ok(60_000_000_000)
    } else if str_eq(unit, "h") {
        Ok(3_600_000_000_000)
    } else {
        Err(cat2("unknown unit in duration: ", unit))
    }
}

/// Accepts a parsed downsample interval only when it is positive.
pub fn parse_positive_interval_nanos(raw: &str, parsed: Result<i64, String>) -> (res: Result<i64, String>)
    ensures
        match parsed {
            Err(e) => res == Err::<i64, String>(e),
            Ok(n) => if n > 0 {
                res == Ok::<i64, String>(n)
            } else {
                res matches Err(m) && m@ == "downsample interval '"@ + raw@ + "' must be positive"@
            },
        },
{
    match parsed {
        Err(e) => Err(e),
        Ok(n) => {
            if n > 0 {
                Ok(n)
            } else {
                Err(cat3("downsample interval '", raw, "' must be positive"))
            }
        },
    }
}

} // verus!
