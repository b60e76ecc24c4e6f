//! Values of the Crawl-delay, Request-rate and Content-Signal directives.
use vstd::prelude::*;
use crate::directive::{
    back_spaces, back_ws, ci_eq, ci_equals, find_byte, first_index, lower, lower_byte, skip_spaces,
    skip_ws,
};

verus! {

/// Largest whole number of seconds that a crawl delay may give.
pub const MAX_DELAY_SECONDS: u64 = 1000000000000;

/// Largest count that a request rate may give on either side.
pub const MAX_RATE_PART: u64 = 2147483647;

/// A limit of `requests` fetches every `seconds` seconds.
#[derive(Debug, Clone, Copy, PartialEq, Eq, Structural)]
pub struct RequestRate {
    pub requests: i32,
    pub seconds: i32,
}

/// Content-Signal permissions: each is 1 (allowed), 0 (disallowed) or -1 (not given).
#[derive(Debug, Clone, Copy, PartialEq, Eq, Structural)]
pub struct ContentSignal {
    pub ai_train: i8,
    pub ai_input: i8,
    pub search: i8,
}

pub open spec fn is_digit(c: u8) -> bool {
    48 <= c <= 57
}

pub open spec fn all_digits(s: Seq<u8>) -> bool {
    forall|i: int| 0 <= i < s.len() ==> is_digit(#[trigger] s[i])
}

/// The number that a run of decimal digits writes.
pub open spec fn digits_value(s: Seq<u8>) -> nat
    decreases s.len(),
{
    if s.len() == 0 {
        0
    } else {
        digits_value(s.drop_last()) * 10 + (s.last() - 48) as nat
    }
}

/// `s` is a non-empty run of digits whose value is at most `cap`.
pub open spec fn uint_in(s: Seq<u8>, cap: nat) -> bool {
    s.len() > 0 && all_digits(s) && digits_value(s) <= cap
}

proof fn lemma_prefix_value_le(s: Seq<u8>, k: int)
    requires
        0 <= k <= s.len(),
        all_digits(s),
    ensures
        digits_value(s.take(k)) <= digits_value(s),
    decreases s.len() - k,
{
    if k < s.len() {
        lemma_prefix_value_le(s, k + 1);
        assert(s.take(k + 1).drop_last() =~= s.take(k));
        assert(is_digit(s[k]));
    } else {
        assert(s.take(k) =~= s);
    }
}

/// Reads `t[lo..hi]` as a decimal number no larger than `cap`.
pub(crate) fn parse_uint(t: &[u8], lo: usize, hi: usize, cap: u64) -> (r: Option<u64>)
    requires
        lo <= hi <= t@.len(),
    ensures
        match r {
            Some(v) => uint_in(t@.subrange(lo as int, hi as int), cap as nat) && v == digits_value(
                t@.subrange(lo as int, hi as int),
            ),
            None => !uint_in(t@.subrange(lo as int, hi as int), cap as nat),
        },
{
    let ghost s = t@.subrange(lo as int, hi as int);
    if lo == hi {
        return None;
    }
    let mut v: u64 = 0;
    let mut i: usize = lo;
    while i < hi
        invariant
            lo <= i <= hi <= t@.len(),
            s == t@.subrange(lo as int, hi as int),
            all_digits(s.take(i - lo)),
            v == digits_value(s.take(i - lo)),
            v <= cap,
        decreases hi - i,
    {
        let c = t[i];
        assert(s.take(i - lo + 1).drop_last() =~= s.take(i - lo));
        assert(s[i - lo] == c);
        if c < 48 || c > 57 {
            assert(!is_digit(s[i - lo]));
            return None;
        }
        let nv: u128 = v as u128 * 10 + (c - 48) as u128;
        if nv > cap as u128 {
            proof {
                if all_digits(s) {
                    lemma_prefix_value_le(s, i - lo + 1);
                }
            }
            return None;
        }
        v = nv as u64;
        i = i + 1;
    }
    assert(s.take(hi - lo) =~= s);
    Some(v)
}

/// Thousandths of a second that the digits after a decimal point give.
pub open spec fn frac_millis(f: Seq<u8>) -> nat {
    if f.len() == 0 {
        0
    } else if f.len() == 1 {
        digits_value(f) * 100
    } else if f.len() == 2 {
        digits_value(f) * 10
    } else {
        digits_value(f.take(3))
    }
}

/// A Crawl-delay value in milliseconds: digits, then at most one `.` and more
/// digits; at least one digit before the point; at most `MAX_DELAY_SECONDS`
/// whole seconds; digits past the thousandths are read and dropped.
pub open spec fn parse_delay(v: Seq<u8>) -> Option<u64> {
    let d = first_index(v, 0, v.len() as int, 46);
    let whole = v.subrange(0, d);
    let frac = if d < v.len() { v.subrange(d + 1, v.len() as int) } else { seq![] };
    if uint_in(whole, MAX_DELAY_SECONDS as nat) && all_digits(frac) {
        Some((digits_value(whole) * 1000 + frac_millis(frac)) as u64)
    } else {
        None
    }
}

fn all_digits_in(t: &[u8], lo: usize, hi: usize) -> (r: bool)
    requires
        lo <= hi <= t@.len(),
    ensures
        r == all_digits(t@.subrange(lo as int, hi as int)),
{
    let mut i: usize = lo;
    while i < hi
        invariant
            lo <= i <= hi <= t@.len(),
            forall|k: int| lo <= k < i ==> is_digit(#[trigger] t@[k]),
        decreases hi - i,
    {
        if t[i] < 48 || t[i] > 57 {
            assert(!is_digit(t@.subrange(lo as int, hi as int)[i - lo]));
            return false;
        }
        i = i + 1;
    }
    assert forall|k: int| 0 <= k < hi - lo implies is_digit(
        #[trigger] t@.subrange(lo as int, hi as int)[k],
    ) by {
        assert(t@.subrange(lo as int, hi as int)[k] == t@[lo + k]);
    }
    true
}

/// Reads a Crawl-delay value, in milliseconds.
pub fn parse_crawl_delay(v: &[u8]) -> (r: Option<u64>)
    ensures
        r == parse_delay(v@),
{
    let d = find_byte(v, 0, v.len(), 46);
    let whole = parse_uint(v, 0, d, MAX_DELAY_SECONDS);
    let fs: usize = if d < v.len() { d + 1 } else { v.len() };
    let ghost frac = if d < v.len() { v@.subrange(d + 1, v@.len() as int) } else { seq![] };
    assert(frac =~= v@.subrange(fs as int, v@.len() as int));
    if !all_digits_in(v, fs, v.len()) {
        return None;
    }
    match whole {
        None => None,
        Some(w) => {
            let n = v.len() - fs;
            let fe: usize = if n > 3 { fs + 3 } else { v.len() };
            assert(n >= 3 ==> frac.take(3) =~= v@.subrange(fs as int, fe as int));
            assert(n <= 3 ==> frac =~= v@.subrange(fs as int, fe as int));
            let f = if n == 0 {
                0
            } else {
                match parse_uint(v, fs, fe, 999) {
                    Some(x) => x,
                    None => {
                        proof {
                            let sub = v@.subrange(fs as int, fe as int);
                            assert forall|i: int| 0 <= i < sub.len() implies is_digit(
                                #[trigger] sub[i],
                            ) by {
                                assert(sub[i] == frac[i]);
                            }
                            lemma_three_digits(sub);
                        }
                        0
                    },
                }
            };
            let r: u64 = if n == 1 {
                w * 1000 + f * 100
            } else if n == 2 {
                w * 1000 + f * 10
            } else {
                w * 1000 + f
            };
            Some(r)
        },
    }
}

proof fn lemma_three_digits(s: Seq<u8>)
    requires
        s.len() <= 3,
        all_digits(s),
    ensures
        digits_value(s) <= 999,
    decreases s.len(),
{
    if s.len() > 0 {
        let p = s.drop_last();
        assert(all_digits(p)) by {
            assert forall|i: int| 0 <= i < p.len() implies is_digit(#[trigger] p[i]) by {
                assert(p[i] == s[i]);
            }
        }
        lemma_three_digits_le(p);
        assert(is_digit(s[s.len() - 1]));
    }
}

proof fn lemma_three_digits_le(s: Seq<u8>)
    requires
        s.len() <= 2,
        all_digits(s),
    ensures
        digits_value(s) <= 99,
        s.len() <= 1 ==> digits_value(s) <= 9,
        s.len() == 0 ==> digits_value(s) == 0,
    decreases s.len(),
{
    if s.len() > 0 {
        let p = s.drop_last();
        assert(all_digits(p)) by {
            assert forall|i: int| 0 <= i < p.len() implies is_digit(#[trigger] p[i]) by {
                assert(p[i] == s[i]);
            }
        }
        lemma_three_digits_le(p);
        assert(is_digit(s[s.len() - 1]));
    }
}


/// A Request-rate value `N/M`, where `N` may carry an `r` and `M` an `s` (as in
/// `1r/5s`): `N` requests every `M` seconds, both positive and at most `MAX_RATE_PART`.
pub open spec fn parse_rate(v: Seq<u8>) -> Option<RequestRate> {
    let n = v.len() as int;
    let slash = first_index(v, 0, n, 47);
    let ae = if slash > 0 && lower(v[slash - 1]) == 114 { slash - 1 } else { slash };
    let be = if n > slash + 1 && lower(v[n - 1]) == 115 { n - 1 } else { n };
    let a = v.subrange(0, ae);
    let b = v.subrange(slash + 1, be);
    if slash < n && uint_in(a, MAX_RATE_PART as nat) && uint_in(b, MAX_RATE_PART as nat)
        && digits_value(a) > 0 && digits_value(b) > 0 {
        Some(RequestRate { requests: digits_value(a) as i32, seconds: digits_value(b) as i32 })
    } else {
        None
    }
}

/// Reads a Request-rate value.
pub fn parse_request_rate(v: &[u8]) -> (r: Option<RequestRate>)
    ensures
        r == parse_rate(v@),
{
    let n = v.len();
    let slash = find_byte(v, 0, n, 47);
    if slash >= n {
        return None;
    }
    let ae: usize = if slash > 0 && lower_byte(v[slash - 1]) == 114 { slash - 1 } else { slash };
    let be: usize = if n > slash + 1 && lower_byte(v[n - 1]) == 115 { n - 1 } else { n };
    let a = parse_uint(v, 0, ae, MAX_RATE_PART);
    let b = parse_uint(v, slash + 1, be, MAX_RATE_PART);
    match (a, b) {
        (Some(x), Some(y)) => {
            if x > 0 && y > 0 {
                Some(RequestRate { requests: x as i32, seconds: y as i32 })
            } else {
                None
            }
        },
        _ => None,
    }
}

pub open spec fn kw_ai_train() -> Seq<u8> {
    seq![97u8, 105, 45, 116, 114, 97, 105, 110]
}

pub open spec fn kw_ai_input() -> Seq<u8> {
    seq![97u8, 105, 45, 105, 110, 112, 117, 116]
}

pub open spec fn kw_search() -> Seq<u8> {
    seq![115u8, 101, 97, 114, 99, 104]
}

pub open spec fn kw_yes() -> Seq<u8> {
    seq![121u8, 101, 115]
}

pub open spec fn kw_no() -> Seq<u8> {
    seq![110u8, 111]
}

/// A Content-Signal answer: `yes` is 1, `no` is 0, anything else -1 (ignored).
pub open spec fn signal_word(w: Seq<u8>) -> i8 {
    if ci_eq(w, kw_yes()) {
        1
    } else if ci_eq(w, kw_no()) {
        0
    } else {
        -1i8
    }
}

/// The signals after reading the pair `key=yes|no` at `v[lo..hi]` over `acc`;
/// an unknown key or answer leaves `acc` as it was.
pub open spec fn apply_pair(v: Seq<u8>, lo: int, hi: int, acc: ContentSignal) -> ContentSignal {
    let eq = first_index(v, lo, hi, 61);
    let ks = skip_ws(v, lo, eq);
    let ke = back_ws(v, ks, eq);
    let vs = skip_ws(v, eq + 1, hi);
    let ve = back_ws(v, vs, hi);
    let key = v.subrange(ks, ke);
    let w = signal_word(v.subrange(vs, ve));
    if eq >= hi || w < 0 {
        acc
    } else if ci_eq(key, kw_ai_train()) {
        ContentSignal { ai_train: w, ai_input: acc.ai_input, search: acc.search }
    } else if ci_eq(key, kw_ai_input()) {
        ContentSignal { ai_train: acc.ai_train, ai_input: w, search: acc.search }
    } else if ci_eq(key, kw_search()) {
        ContentSignal { ai_train: acc.ai_train, ai_input: acc.ai_input, search: w }
    } else {
        acc
    }
}

/// The signals after reading the comma-separated pairs of `v` from byte `i` on.
pub open spec fn signal_from(v: Seq<u8>, i: int, acc: ContentSignal) -> ContentSignal
    decreases v.len() - i,
{
    if i < 0 || i > v.len() {
        acc
    } else {
        let e = first_index(v, i, v.len() as int, 44);
        let next = apply_pair(v, i, e, acc);
        if e >= v.len() || e < i {
            next
        } else {
            signal_from(v, e + 1, next)
        }
    }
}

/// No signal given.
pub open spec fn no_signal() -> ContentSignal {
    ContentSignal { ai_train: -1i8, ai_input: -1i8, search: -1i8 }
}

fn word_value(v: &[u8], lo: usize, hi: usize) -> (r: i8)
    requires
        lo <= hi <= v@.len(),
    ensures
        r == signal_word(v@.subrange(lo as int, hi as int)),
{
    let yes: Vec<u8> = vec![121u8, 101, 115];
    let no: Vec<u8> = vec![110u8, 111];
    assert(yes@ =~= kw_yes());
    assert(no@ =~= kw_no());
    if ci_equals(v, lo, hi, yes.as_slice()) {
        1
    } else if ci_equals(v, lo, hi, no.as_slice()) {
        0
    } else {
        -1
    }
}

fn read_pair(v: &[u8], lo: usize, hi: usize, acc: ContentSignal) -> (r: ContentSignal)
    requires
        lo <= hi <= v@.len(),
    ensures
        r == apply_pair(v@, lo as int, hi as int, acc),
{
    let eq = find_byte(v, lo, hi, 61);
    if eq >= hi {
        return acc;
    }
    let ks = skip_spaces(v, lo, eq);
    let ke = back_spaces(v, ks, eq);
    let vs = skip_spaces(v, eq + 1, hi);
    let ve = back_spaces(v, vs, hi);
    let w = word_value(v, vs, ve);
    if w < 0 {
        return acc;
    }
    let tr: Vec<u8> = vec![97u8, 105, 45, 116, 114, 97, 105, 110];
    let inp: Vec<u8> = vec![97u8, 105, 45, 105, 110, 112, 117, 116];
    let se: Vec<u8> = vec![115u8, 101, 97, 114, 99, 104];
    assert(tr@ =~= kw_ai_train());
    assert(inp@ =~= kw_ai_input());
    assert(se@ =~= kw_search());
    if ci_equals(v, ks, ke, tr.as_slice()) {
        ContentSignal { ai_train: w, ai_input: acc.ai_input, search: acc.search }
    } else if ci_equals(v, ks, ke, inp.as_slice()) {
        ContentSignal { ai_train: acc.ai_train, ai_input: w, search: acc.search }
    } else if ci_equals(v, ks, ke, se.as_slice()) {
        ContentSignal { ai_train: acc.ai_train, ai_input: acc.ai_input, search: w }
    } else {
        acc
    }
}

/// Reads a Content-Signal value (`ai-train=no, search=yes`) over the signals
/// `acc` given so far: a later answer for a key replaces an earlier one.
pub fn parse_content_signal(v: &[u8], acc: ContentSignal) -> (r: ContentSignal)
    ensures
        r == signal_from(v@, 0, acc),
{
    let mut i: usize = 0;
    let mut cur = acc;
    loop
        invariant
            i <= v@.len(),
            signal_from(v@, i as int, cur) == signal_from(v@, 0, acc),
        decreases v@.len() - i,
    {
        let e = find_byte(v, i, v.len(), 44);
        cur = read_pair(v, i, e, cur);
        if e >= v.len() {
            return cur;
        }
        i = e + 1;
    }
}

} // verus!
