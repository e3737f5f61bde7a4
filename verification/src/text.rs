//! Character-level helpers over strings, stated over `Seq<char>` views.

use vstd::prelude::*;
use vstd::string::StringExecFns;
use vstd::string::StrSliceExecFns;

verus! {

/// The characters of `s`, in order.
pub fn chars_of(s: &str) -> (res: Vec<char>)
    ensures
        res@ == s@,
{
    let mut out: Vec<char> = Vec::new();
    for c in it: s.chars()
        invariant
            it.seq() == s@,
            out@ == it.seq().take(it.index() as int),
    {
        out.push(c);
    }
    out
}

/// Whether `c` occurs anywhere in `s`.
pub fn contains_char(s: &str, c: char) -> (res: bool)
    ensures
        res == s@.contains(c),
{
    let cs = chars_of(s);
    let mut i: usize = 0;
    while i < cs.len()
        invariant
            cs@ == s@,
            0 <= i <= cs.len(),
            forall|j: int| 0 <= j < i ==> cs@[j] != c,
        decreases cs.len() - i,
    {
        if cs[i] == c {
            assert(s@[i as int] == c);
            return true;
        }
        i += 1;
    }
    false
}

/// Whether `prefix` is a prefix of `s`, character by character.
pub fn starts_with(s: &str, prefix: &str) -> (res: bool)
    ensures
        res == (prefix@.len() <= s@.len() && s@.subrange(0, prefix@.len() as int) == prefix@),
{
    let cs = chars_of(s);
    let ps = chars_of(prefix);
    if ps.len() > cs.len() {
        return false;
    }
    let mut i: usize = 0;
    while i < ps.len()
        invariant
            cs@ == s@,
            ps@ == prefix@,
            ps.len() <= cs.len(),
            0 <= i <= ps.len(),
            forall|j: int| 0 <= j < i ==> cs@[j] == ps@[j],
        decreases ps.len() - i,
    {
        if cs[i] != ps[i] {
            assert(s@.subrange(0, prefix@.len() as int)[i as int] != prefix@[i as int]);
            return false;
        }
        i += 1;
    }
    assert(s@.subrange(0, prefix@.len() as int) =~= prefix@);
    true
}

/// A fresh `String` holding the concatenation of `parts`.
pub fn concat(parts: &[&str]) -> (res: String)
    ensures
        res@ == concat_spec(parts@.map_values(|p: &str| p@)),
{
    let mut out = String::new();
    let ghost views = parts@.map_values(|p: &str| p@);
    let mut i: usize = 0;
    while i < parts.len()
        invariant
            0 <= i <= parts.len(),
            views == parts@.map_values(|p: &str| p@),
            out@ == concat_spec(views.take(i as int)),
        decreases parts.len() - i,
    {
        out.append(parts[i]);
        assert(views.take(i + 1).drop_last() =~= views.take(i as int));
        i += 1;
    }
    assert(views.take(parts.len() as int) =~= views);
    out
}

/// Concatenation of a sequence of character sequences.
pub open spec fn concat_spec(parts: Seq<Seq<char>>) -> Seq<char>
    decreases parts.len(),
{
    if parts.len() == 0 {
        Seq::empty()
    } else {
        concat_spec(parts.drop_last()) + parts.last()
    }
}

/// The character views of a sequence of strings.
pub open spec fn views(v: Seq<String>) -> Seq<Seq<char>> {
    v.map_values(|s: String| s@)
}

/// Appends every string of `src` to `dst`.
pub fn extend_strings(dst: &mut Vec<String>, src: Vec<String>)
    ensures
        views(final(dst)@) == views(old(dst)@) + views(src@),
{
    let mut src = src;
    let ghost a = dst@;
    let ghost b = src@;
    dst.append(&mut src);
    assert(views(a + b) =~= views(a) + views(b));
}

/// Appends one string to `dst`.
pub fn push_string(dst: &mut Vec<String>, s: String)
    ensures
        views(final(dst)@) == views(old(dst)@).push(s@),
{
    let ghost a = dst@;
    dst.push(s);
    assert(views(a.push(s)) =~= views(a).push(s@));
}

/// `a` followed by `b`, as a new string.
pub fn cat2(a: &str, b: &str) -> (res: String)
    ensures
        res@ == a@ + b@,
{
    let mut s = String::from_str(a);
    s.append(b);
    s
}

/// `a`, `b`, `c` in turn, as a new string.
pub fn cat3(a: &str, b: &str, c: &str) -> (res: String)
    ensures
        res@ == a@ + b@ + c@,
{
    let mut s = String::from_str(a);
    s.append(b);
    s.append(c);
    s
}

/// `a`, `b`, `c`, `d` in turn, as a new string.
pub fn cat4(a: &str, b: &str, c: &str, d: &str) -> (res: String)
    ensures
        res@ == a@ + b@ + c@ + d@,
{
    let mut s = String::from_str(a);
    s.append(b);
    s.append(c);
    s.append(d);
    s
}

/// `a` to `e` in turn, as a new string.
pub fn cat5(a: &str, b: &str, c: &str, d: &str, e: &str) -> (res: String)
    ensures
        res@ == a@ + b@ + c@ + d@ + e@,
{
    let mut s = String::from_str(a);
    s.append(b);
    s.append(c);
    s.append(d);
    s.append(e);
    s
}

/// The decimal digit `d` as a one-character string.
pub open spec fn digit_str(d: nat) -> Seq<char> {
    if d == 0 { "0"@ } else if d == 1 { "1"@ } else if d == 2 { "2"@ } else if d == 3 { "3"@ }
    else if d == 4 { "4"@ } else if d == 5 { "5"@ } else if d == 6 { "6"@ } else if d == 7 { "7"@ }
    else if d == 8 { "8"@ } else { "9"@ }
}

/// The decimal representation of `n`, without leading zeros.
pub open spec fn decimal(n: nat) -> Seq<char>
    decreases n,
{
    if n < 10 { digit_str(n) } else { decimal(n / 10) + digit_str(n % 10) }
}

fn digit_lit(d: usize) -> (res: &'static str)
    requires
        d < 10,
    ensures
        res@ == digit_str(d as nat),
{
    if d == 0 { "0" } else if d == 1 { "1" } else if d == 2 { "2" } else if d == 3 { "3" }
    else if d == 4 { "4" } else if d == 5 { "5" } else if d == 6 { "6" } else if d == 7 { "7" }
    else if d == 8 { "8" } else { "9" }
}

/// The decimal representation of `n`.
pub fn u64_to_decimal(n: u64) -> (res: String)
    ensures
        res@ == decimal(n as nat),
    decreases n,
{
    if n < 10 {
        String::from_str(digit_lit(n as usize))
    } else {
        let mut s = u64_to_decimal(n / 10);
        s.append(digit_lit((n % 10) as usize));
        s
    }
}

/// Joins `parts` with `sep` between consecutive parts.
pub open spec fn join_spec(parts: Seq<Seq<char>>, sep: Seq<char>) -> Seq<char>
    decreases parts.len(),
{
    if parts.len() == 0 {
        Seq::empty()
    } else if parts.len() == 1 {
        parts[0]
    } else {
        join_spec(parts.drop_last(), sep) + sep + parts.last()
    }
}

/// Joins the strings of `parts` with `sep` between consecutive parts.
pub fn join(parts: &Vec<String>, sep: &str) -> (res: String)
    ensures
        res@ == join_spec(views(parts@), sep@),
{
    let mut out = String::new();
    let mut i: usize = 0;
    while i < parts.len()
        invariant
            0 <= i <= parts.len(),
            out@ == join_spec(views(parts@).take(i as int), sep@),
        decreases parts.len() - i,
    {
        assert(views(parts@).take(i + 1).drop_last() =~= views(parts@).take(i as int));
        if i > 0 {
            out.append(sep);
        }
        out.append(parts[i].as_str());
        i += 1;
    }
    assert(views(parts@).take(parts.len() as int) =~= views(parts@));
    out
}

/// Whether `pat` occurs in `s` as a contiguous run of characters.
pub open spec fn has_substring(s: Seq<char>, pat: Seq<char>) -> bool {
    exists|i: int| 0 <= i && i + pat.len() <= s.len() && #[trigger] s.subrange(i, i + pat.len()) == pat
}

/// Whether `pat` occurs in `s`.
pub fn contains_str(s: &str, pat: &str) -> (res: bool)
    ensures
        res == has_substring(s@, pat@),
{
    let cs = chars_of(s);
    let ps = chars_of(pat);
    if ps.len() > cs.len() {
        proof {
            assert forall|i: int| 0 <= i && i + pat@.len() <= s@.len() implies
                #[trigger] s@.subrange(i, i + pat@.len()) != pat@ by {}
        }
        return false;
    }
    let mut i: usize = 0;
    while i <= cs.len() - ps.len()
        invariant
            cs@ == s@,
            ps@ == pat@,
            ps.len() <= cs.len(),
            i <= cs.len() - ps.len() + 1,
            forall|k: int| 0 <= k < i ==> #[trigger] s@.subrange(k, k + pat@.len()) != pat@,
        decreases cs.len() - i + 1,
    {
        let mut j: usize = 0;
        let mut ok = true;
        while j < ps.len()
            invariant
                cs@ == s@,
                ps@ == pat@,
                i + ps.len() <= cs.len(),
                0 <= j <= ps.len(),
                ok == forall|t: int| 0 <= t < j ==> cs@[i + t] == ps@[t],
            decreases ps.len() - j,
        {
            if cs[i + j] != ps[j] {
                ok = false;
            }
            j += 1;
        }
        if ok {
            assert(s@.subrange(i as int, i + pat@.len()) =~= pat@);
            return true;
        } else {
            proof {
                let t = choose|t: int| 0 <= t < ps.len() && cs@[i + t] != ps@[t];
                assert(s@.subrange(i as int, i + pat@.len())[t] != pat@[t]);
            }
        }
        i += 1;
    }
    false
}

/// A copy of each string of `v`.
pub fn clone_strings(v: &Vec<String>) -> (res: Vec<String>)
    ensures
        views(res@) == views(v@),
{
    let mut out: Vec<String> = Vec::new();
    let mut i: usize = 0;
    while i < v.len()
        invariant
            0 <= i <= v.len(),
            views(out@) == views(v@).take(i as int),
        decreases v.len() - i,
    {
        let ghost before = out@;
        out.push(v[i].clone());
        assert(views(out@) =~= views(before).push(v@[i as int]@));
        assert(views(v@).take(i + 1) =~= views(v@).take(i as int).push(v@[i as int]@));
        i += 1;
    }
    assert(views(v@).take(v.len() as int) =~= views(v@));
    out
}

/// A copy of an optional string.
pub fn clone_opt(v: &Option<String>) -> (res: Option<String>)
    ensures
        res is Some == v is Some,
        v is Some ==> res->0@ == v->0@,
{
    match v {
        None => None,
        Some(s) => Some(s.clone()),
    }
}

/// Strict lexicographic order of character sequences, by code point (the
/// order `str` comparison gives).
pub open spec fn lex_lt(a: Seq<char>, b: Seq<char>) -> bool
    decreases a.len(),
{
    if a.len() == 0 {
        b.len() > 0
    } else if b.len() == 0 {
        false
    } else if a[0] != b[0] {
        (a[0] as int) < (b[0] as int)
    } else {
        lex_lt(a.drop_first(), b.drop_first())
    }
}

/// `lex_lt` is irreflexive and asymmetric.
pub proof fn lemma_lex_asym(a: Seq<char>, b: Seq<char>)
    ensures
        !(lex_lt(a, b) && lex_lt(b, a)),
        !lex_lt(a, a),
    decreases a.len(),
{
    if a.len() > 0 && b.len() > 0 && a[0] == b[0] {
        lemma_lex_asym(a.drop_first(), b.drop_first());
    }
    if a.len() > 0 {
        lemma_lex_asym(a.drop_first(), a.drop_first());
    }
}

/// `lex_lt` is total on distinct sequences.
pub proof fn lemma_lex_total(a: Seq<char>, b: Seq<char>)
    ensures
        a != b ==> lex_lt(a, b) || lex_lt(b, a),
    decreases a.len(),
{
    if a.len() > 0 && b.len() > 0 && a[0] == b[0] {
        lemma_lex_total(a.drop_first(), b.drop_first());
        if a != b {
            assert(a.drop_first() != b.drop_first()) by {
                if a.drop_first() == b.drop_first() {
                    assert(a =~= seq![a[0]] + a.drop_first());
                    assert(b =~= seq![b[0]] + b.drop_first());
                }
            }
        }
    } else if a.len() > 0 && b.len() > 0 {
        assert((a[0] as int) != (b[0] as int));
    } else if a.len() == 0 && b.len() == 0 {
        assert(a =~= b);
    }
}

/// `lex_lt` is transitive.
pub proof fn lemma_lex_trans(a: Seq<char>, b: Seq<char>, c: Seq<char>)
    requires
        lex_lt(a, b),
        lex_lt(b, c),
    ensures
        lex_lt(a, c),
    decreases a.len(),
{
    if a.len() > 0 && b.len() > 0 && c.len() > 0 && a[0] == b[0] && b[0] == c[0] {
        lemma_lex_trans(a.drop_first(), b.drop_first(), c.drop_first());
    }
}

/// Whether `a` sorts strictly before `b`.
pub fn str_lt(a: &str, b: &str) -> (res: bool)
    ensures
        res == lex_lt(a@, b@),
{
    let ca = chars_of(a);
    let cb = chars_of(b);
    let mut i: usize = 0;
    assert(a@.skip(0) =~= a@);
    assert(b@.skip(0) =~= b@);
    while i < ca.len() && i < cb.len()
        invariant
            ca@ == a@,
            cb@ == b@,
            0 <= i <= ca.len(),
            i <= cb.len(),
            lex_lt(a@, b@) == lex_lt(a@.skip(i as int), b@.skip(i as int)),
        decreases ca.len() - i,
    {
        if ca[i] != cb[i] {
            return ca[i] < cb[i];
        }
        assert(a@.skip(i as int).drop_first() =~= a@.skip(i + 1));
        assert(b@.skip(i as int).drop_first() =~= b@.skip(i + 1));
        i += 1;
    }
    i == ca.len() && i < cb.len()
}

/// Whether two strings have the same characters.
pub fn str_eq(a: &str, b: &str) -> (res: bool)
    ensures
        res == (a@ == b@),
{
    let ca = chars_of(a);
    let cb = chars_of(b);
    if ca.len() != cb.len() {
        return false;
    }
    let mut i: usize = 0;
    while i < ca.len()
        invariant
            ca@ == a@,
            cb@ == b@,
            ca.len() == cb.len(),
            0 <= i <= ca.len(),
            forall|k: int| 0 <= k < i ==> ca@[k] == cb@[k],
        decreases ca.len() - i,
    {
        if ca[i] != cb[i] {
            return false;
        }
        i += 1;
    }
    assert(a@ =~= b@);
    true
}

/// Whether `c` is white space (the Unicode `White_Space` property, as
/// `char::is_whitespace` defines it).
pub open spec fn is_ws(c: char) -> bool {
    c == '\t' || c == '\n' || c == '\u{B}' || c == '\u{C}' || c == '\r' || c == ' ' || c == '\u{85}'
        || c == '\u{A0}' || c == '\u{1680}' || ('\u{2000}' <= c && c <= '\u{200A}') || c == '\u{2028}'
        || c == '\u{2029}' || c == '\u{202F}' || c == '\u{205F}' || c == '\u{3000}'
}

fn char_is_ws(c: char) -> (res: bool)
    ensures
        res == is_ws(c),
{
    c == '\t' || c == '\n' || c == '\u{B}' || c == '\u{C}' || c == '\r' || c == ' ' || c == '\u{85}'
        || c == '\u{A0}' || c == '\u{1680}' || ('\u{2000}' <= c && c <= '\u{200A}') || c == '\u{2028}'
        || c == '\u{2029}' || c == '\u{202F}' || c == '\u{205F}' || c == '\u{3000}'
}

/// Number of leading white-space characters of `s`.
pub open spec fn lead_ws(s: Seq<char>) -> nat
    decreases s.len(),
{
    if s.len() > 0 && is_ws(s[0]) { 1 + lead_ws(s.drop_first()) } else { 0 }
}

/// Number of trailing white-space characters of `s`.
pub open spec fn trail_ws(s: Seq<char>) -> nat
    decreases s.len(),
{
    if s.len() > 0 && is_ws(s.last()) { 1 + trail_ws(s.drop_last()) } else { 0 }
}

/// `s` without leading and trailing white space.
pub open spec fn trim_spec(s: Seq<char>) -> Seq<char> {
    let t = s.skip(lead_ws(s) as int);
    t.take(t.len() - trail_ws(t))
}

proof fn lemma_lead_ws(s: Seq<char>, i: int)
    requires
        0 <= i <= s.len(),
        forall|k: int| 0 <= k < i ==> is_ws(#[trigger] s[k]),
    ensures
        lead_ws(s) == i + lead_ws(s.skip(i)),
    decreases i,
{
    if i > 0 {
        assert(s.drop_first().skip(i - 1) =~= s.skip(i));
        assert forall|k: int| 0 <= k < i - 1 implies is_ws(#[trigger] s.drop_first()[k]) by {
            assert(s.drop_first()[k] == s[k + 1]);
        }
        lemma_lead_ws(s.drop_first(), i - 1);
    } else {
        assert(s.skip(0) =~= s);
    }
}

proof fn lemma_lead_ws_bound(s: Seq<char>)
    ensures
        lead_ws(s) <= s.len(),
    decreases s.len(),
{
    if s.len() > 0 {
        lemma_lead_ws_bound(s.drop_first());
    }
}

proof fn lemma_trail_ws(t: Seq<char>, n: int)
    requires
        0 <= n <= t.len(),
        forall|k: int| n <= k < t.len() ==> is_ws(#[trigger] t[k]),
    ensures
        trail_ws(t) == (t.len() - n) + trail_ws(t.take(n)),
    decreases t.len() - n,
{
    if n < t.len() {
        assert(t.drop_last().take(n) =~= t.take(n));
        assert forall|k: int| n <= k < t.drop_last().len() implies is_ws(#[trigger] t.drop_last()[k]) by {
            assert(t.drop_last()[k] == t[k]);
        }
        lemma_trail_ws(t.drop_last(), n);
    } else {
        assert(t.take(n) =~= t);
    }
}

proof fn lemma_trail_ws_bound(s: Seq<char>)
    ensures
        trail_ws(s) <= s.len(),
    decreases s.len(),
{
    if s.len() > 0 {
        lemma_trail_ws_bound(s.drop_last());
    }
}

/// `s` without leading and trailing white space.
pub fn trim(s: &str) -> (res: String)
    ensures
        res@ == trim_spec(s@),
{
    let cs = chars_of(s);
    let mut i: usize = 0;
    while i < cs.len() && char_is_ws(cs[i])
        invariant
            cs@ == s@,
            0 <= i <= cs.len(),
            forall|k: int| 0 <= k < i ==> is_ws(#[trigger] s@[k]),
        decreases cs.len() - i,
    {
        i += 1;
    }
    proof {
        lemma_lead_ws(s@, i as int);
        if i < cs.len() {
            assert(s@.skip(i as int)[0] == s@[i as int]);
        } else {
            assert(s@.skip(i as int).len() == 0);
        }
        assert(lead_ws(s@.skip(i as int)) == 0);
    }
    let mut j: usize = cs.len();
    while j > i && char_is_ws(cs[j - 1])
        invariant
            cs@ == s@,
            i <= j <= cs.len(),
            forall|k: int| j <= k < cs.len() ==> is_ws(#[trigger] s@[k]),
        decreases j,
    {
        j -= 1;
    }
    let ghost t = s@.skip(i as int);
    proof {
        assert forall|k: int| j - i <= k < t.len() implies is_ws(#[trigger] t[k]) by {
            assert(t[k] == s@[k + i]);
        }
        lemma_trail_ws(t, j - i);
        let u = t.take(j - i);
        if j > i {
            assert(u.last() == s@[j - 1]);
        }
        assert(trail_ws(u) == 0);
    }
    let out = s.substring_char(i, j);
    assert(out@ =~= t.take(j - i));
    String::from_str(out)
}


/// The contents of an optional string.
pub open spec fn opt_view(o: Option<String>) -> Option<Seq<char>> {
    match o {
        Some(s) => Some(s@),
        None => None,
    }
}

/// Whether `x` sorts after `last` (everything does when there is no last).
pub open spec fn lex_above(x: Seq<char>, last: Option<Seq<char>>) -> bool {
    match last {
        None => true,
        Some(l) => lex_lt(l, x),
    }
}

/// How many of `v` sort after `last`.
pub open spec fn count_lex_above(v: Seq<Seq<char>>, last: Option<Seq<char>>) -> nat
    decreases v.len(),
{
    if v.len() == 0 {
        0
    } else {
        count_lex_above(v.drop_last(), last) + if lex_above(v.last(), last) { 1nat } else { 0nat }
    }
}

proof fn lemma_count_lex_above_mono(v: Seq<Seq<char>>, last: Option<Seq<char>>, c: Seq<char>)
    requires
        lex_above(c, last),
    ensures
        count_lex_above(v, Some(c)) <= count_lex_above(v, last),
    decreases v.len(),
{
    if v.len() > 0 {
        lemma_count_lex_above_mono(v.drop_last(), last, c);
        if lex_lt(c, v.last()) {
            match last {
                None => {},
                Some(l) => { lemma_lex_trans(l, c, v.last()); },
            }
        }
    }
}

proof fn lemma_count_lex_above_decreases(v: Seq<Seq<char>>, last: Option<Seq<char>>, c: Seq<char>)
    requires
        v.contains(c),
        lex_above(c, last),
    ensures
        count_lex_above(v, Some(c)) < count_lex_above(v, last),
    decreases v.len(),
{
    lemma_count_lex_above_mono(v.drop_last(), last, c);
    lemma_lex_asym(c, c);
    if v.last() != c {
        let k = choose|k: int| 0 <= k < v.len() && v[k] == c;
        assert(v.drop_last()[k] == c);
        lemma_count_lex_above_decreases(v.drop_last(), last, c);
        if lex_lt(c, v.last()) {
            match last {
                None => {},
                Some(l) => { lemma_lex_trans(l, c, v.last()); },
            }
        }
    }
}

/// Whether some string of `v` has the contents `x`.
pub open spec fn listed(v: Seq<String>, x: Seq<char>) -> bool {
    exists|k: int| 0 <= k < v.len() && v[k]@ == x
}

/// Whether some string of `v` has the contents of `s`.
pub fn contains_name(v: &Vec<String>, s: &str) -> (res: bool)
    ensures
        res == views(v@).contains(s@),
        res == listed(v@, s@),
{
    let mut i: usize = 0;
    while i < v.len()
        invariant
            0 <= i <= v.len(),
            forall|k: int| 0 <= k < i ==> v@[k]@ != s@,
        decreases v.len() - i,
    {
        if str_eq(v[i].as_str(), s) {
            assert(views(v@)[i as int] == s@);
            return true;
        }
        i += 1;
    }
    assert forall|k: int| 0 <= k < views(v@).len() implies views(v@)[k] != s@ by {
        assert(views(v@)[k] == v@[k]@);
    }
    false
}

/// The distinct strings of `items`, in ascending order.
pub fn sorted_distinct(items: &Vec<String>) -> (res: Vec<String>)
    ensures
        forall|k: int| 0 <= k < res@.len() ==> views(items@).contains(#[trigger] res@[k]@),
        forall|i: int| 0 <= i < items@.len() ==> listed(res@, (#[trigger] items@[i])@),
        forall|j: int, k: int| 0 <= j < k < res@.len() ==> lex_lt(res@[j]@, res@[k]@),
{
    let ghost v = views(items@);
    let mut out: Vec<String> = Vec::new();
    let mut last: Option<String> = None;
    loop
        invariant
            v == views(items@),
            forall|k: int| 0 <= k < out@.len() ==> v.contains(#[trigger] out@[k]@),
            forall|j: int, k: int| 0 <= j < k < out@.len() ==> lex_lt(out@[j]@, out@[k]@),
            last is None ==> out@.len() == 0,
            last matches Some(l) ==> out@.len() > 0 && out@[out@.len() - 1]@ == l@,
            forall|i: int| 0 <= i < items@.len() && !lex_above((#[trigger] items@[i])@, opt_view(last))
                ==> listed(out@, items@[i]@),
        ensures
            forall|i: int| 0 <= i < items@.len() ==> listed(out@, items@[i]@),
        decreases count_lex_above(v, opt_view(last)),
    {
        let ghost lv: Option<Seq<char>> = opt_view(last);
        let mut best: Option<usize> = None;
        let mut i: usize = 0;
        while i < items.len()
            invariant
                0 <= i <= items@.len(),
                v == views(items@),
                lv == opt_view(last),
                match best {
                    Some(b) => b < items@.len() && lex_above(items@[b as int]@, lv)
                        && forall|k: int| 0 <= k < i && lex_above((#[trigger] items@[k])@, lv) ==> !lex_lt(items@[k]@, items@[b as int]@),
                    None => forall|k: int| 0 <= k < i ==> !lex_above((#[trigger] items@[k])@, lv),
                },
            decreases items.len() - i,
        {
            let above = match &last {
                None => true,
                Some(l) => str_lt(l.as_str(), items[i].as_str()),
            };
            if above {
                match best {
                    None => {
                        proof {
                            lemma_lex_asym(items@[i as int]@, items@[i as int]@);
                        }
                        best = Some(i);
                    },
                    Some(b) => {
                        if str_lt(items[i].as_str(), items[b].as_str()) {
                            proof {
                                assert forall|k: int| 0 <= k < i + 1 && lex_above((#[trigger] items@[k])@, lv)
                                    implies !lex_lt(items@[k]@, items@[i as int]@) by {
                                    if k < i {
                                        if lex_lt(items@[k]@, items@[i as int]@) {
                                            lemma_lex_trans(items@[k]@, items@[i as int]@, items@[b as int]@);
                                        }
                                    } else {
                                        lemma_lex_asym(items@[k]@, items@[k]@);
                                    }
                                }
                            }
                            best = Some(i);
                        } else {
                            proof {
                                lemma_lex_asym(items@[b as int]@, items@[b as int]@);
                            }
                        }
                    },
                }
            }
            i += 1;
        }
        let b = match best {
            Some(b) => b,
            None => {
                proof {
                    assert forall|i: int| 0 <= i < items@.len()
                        implies listed(out@, items@[i]@) by {
                        assert(!lex_above(items@[i]@, lv));
                    }
                }
                break;
            },
        };
        proof {
            assert(v[b as int] == items@[b as int]@);
            lemma_count_lex_above_decreases(v, lv, items@[b as int]@);
        }
        let chosen = items[b].clone();
        let ghost before = out@;
        out.push(chosen);
        proof {
            assert(v.contains(items@[b as int]@)) by {
                assert(v[b as int] == items@[b as int]@);
            }
            assert forall|i: int| 0 <= i < items@.len() && !lex_above((#[trigger] items@[i])@, Some(items@[b as int]@))
                implies listed(out@, items@[i]@) by {
                if items@[i]@ == items@[b as int]@ {
                    assert(out@[out@.len() - 1]@ == items@[i]@);
                } else if lex_above(items@[i]@, lv) {
                    lemma_lex_total(items@[i]@, items@[b as int]@);
                } else {
                    let k = choose|k: int| 0 <= k < before.len() && before[k]@ == items@[i]@;
                    assert(out@[k] == before[k]);
                }
            }
            assert forall|j: int, k: int| 0 <= j < k < out@.len() implies lex_lt(out@[j]@, out@[k]@) by {
                if k == out@.len() - 1 && j < k {
                    match last {
                        Some(l) => {
                            if j < before.len() - 1 {
                                lemma_lex_trans(out@[j]@, l@, out@[k]@);
                            }
                        },
                        None => {},
                    }
                }
            }
        }
        last = Some(items[b].clone());
    }
    out
}

} // verus!
