//! Line scanning and directive parsing: raw robots.txt bytes to `key: value` directives.
use vstd::prelude::*;
use vstd::slice::{slice_subrange, slice_to_vec};

verus! {

/// The recognised directive keys; anything else is `Unknown`.
#[derive(PartialEq, Eq, Structural, Clone, Copy, Debug)]
pub enum DirectiveKind {
    UserAgent,
    Allow,
    Disallow,
    Sitemap,
    CrawlDelay,
    RequestRate,
    ContentSignal,
    Unknown,
}

/// One parsed line: its key, its trimmed value and its 1-based line number.
pub struct Directive {
    pub kind: DirectiveKind,
    pub value: Vec<u8>,
    pub line: usize,
}

/// What a directive is, as plain values.
pub struct DirectiveModel {
    pub kind: DirectiveKind,
    pub value: Seq<u8>,
    pub line: int,
}

impl View for Directive {
    type V = DirectiveModel;

    open spec fn view(&self) -> DirectiveModel {
        DirectiveModel { kind: self.kind, value: self.value@, line: self.line as int }
    }
}

pub open spec fn is_ws(c: u8) -> bool {
    c == 32 || c == 9
}

pub open spec fn is_eol(c: u8) -> bool {
    c == 10 || c == 13
}

/// ASCII lower case of a byte.
pub open spec fn lower(c: u8) -> u8 {
    if 65 <= c <= 90 {
        (c + 32) as u8
    } else {
        c
    }
}

/// `k` equals the lower-case word `w`, ignoring ASCII case.
pub open spec fn ci_eq(k: Seq<u8>, w: Seq<u8>) -> bool {
    k.len() == w.len() && forall|i: int| 0 <= i < k.len() ==> lower(#[trigger] k[i]) == w[i]
}

/// First index in `[lo, hi)` holding `c`, or `hi`.
pub open spec fn first_index(t: Seq<u8>, lo: int, hi: int, c: u8) -> int
    decreases hi - lo,
{
    if lo < hi && t[lo] != c {
        first_index(t, lo + 1, hi, c)
    } else if lo < hi {
        lo
    } else {
        hi
    }
}

/// First index in `[lo, hi)` that is not a space or tab, or `hi`.
pub open spec fn skip_ws(t: Seq<u8>, lo: int, hi: int) -> int
    decreases hi - lo,
{
    if lo < hi && is_ws(t[lo]) {
        skip_ws(t, lo + 1, hi)
    } else {
        lo
    }
}

/// End of `[lo, hi)` once trailing spaces and tabs are dropped.
pub open spec fn back_ws(t: Seq<u8>, lo: int, hi: int) -> int
    decreases hi - lo,
{
    if lo < hi && is_ws(t[hi - 1]) {
        back_ws(t, lo, hi - 1)
    } else {
        hi
    }
}

/// End of the line that starts at `i`: the first `\n` or `\r`, or the end of `t`.
pub open spec fn line_end(t: Seq<u8>, i: int) -> int
    decreases t.len() - i,
{
    if 0 <= i < t.len() && !is_eol(t[i]) {
        line_end(t, i + 1)
    } else {
        i
    }
}

/// Start of the next line after a line that ends at `e`; `\r\n` is one terminator.
pub open spec fn next_line(t: Seq<u8>, e: int) -> int {
    if e >= t.len() {
        t.len() as int
    } else if t[e] == 13 && e + 1 < t.len() && t[e + 1] == 10 {
        e + 2
    } else {
        e + 1
    }
}

pub open spec fn kw_user_agent() -> Seq<u8> {
    seq![117u8, 115, 101, 114, 45, 97, 103, 101, 110, 116]
}

pub open spec fn kw_allow() -> Seq<u8> {
    seq![97u8, 108, 108, 111, 119]
}

pub open spec fn kw_disallow() -> Seq<u8> {
    seq![100u8, 105, 115, 97, 108, 108, 111, 119]
}

pub open spec fn kw_sitemap() -> Seq<u8> {
    seq![115u8, 105, 116, 101, 109, 97, 112]
}

pub open spec fn kw_crawl_delay() -> Seq<u8> {
    seq![99u8, 114, 97, 119, 108, 45, 100, 101, 108, 97, 121]
}

pub open spec fn kw_request_rate() -> Seq<u8> {
    seq![114u8, 101, 113, 117, 101, 115, 116, 45, 114, 97, 116, 101]
}

pub open spec fn kw_content_signal() -> Seq<u8> {
    seq![99u8, 111, 110, 116, 101, 110, 116, 45, 115, 105, 103, 110, 97, 108]
}

/// The kind that a key names, compared without regard to ASCII case.
pub open spec fn kind_of(k: Seq<u8>) -> DirectiveKind {
    if ci_eq(k, kw_user_agent()) {
        DirectiveKind::UserAgent
    } else if ci_eq(k, kw_allow()) {
        DirectiveKind::Allow
    } else if ci_eq(k, kw_disallow()) {
        DirectiveKind::Disallow
    } else if ci_eq(k, kw_sitemap()) {
        DirectiveKind::Sitemap
    } else if ci_eq(k, kw_crawl_delay()) {
        DirectiveKind::CrawlDelay
    } else if ci_eq(k, kw_request_rate()) {
        DirectiveKind::RequestRate
    } else if ci_eq(k, kw_content_signal()) {
        DirectiveKind::ContentSignal
    } else {
        DirectiveKind::Unknown
    }
}

/// The directive on the line `t[lo..hi]`, as its kind and the bounds of its value:
/// a `#` starts a comment, the key ends at the first colon, key and value are
/// trimmed, and a line with no colon or an empty key holds none.
pub open spec fn parse_line(t: Seq<u8>, lo: int, hi: int) -> Option<(DirectiveKind, int, int)> {
    let c = first_index(t, lo, hi, 35);
    let colon = first_index(t, lo, c, 58);
    let ks = skip_ws(t, lo, colon);
    let ke = back_ws(t, ks, colon);
    let vs = skip_ws(t, colon + 1, c);
    let ve = back_ws(t, vs, c);
    if colon >= c || ks >= ke {
        None
    } else {
        Some((kind_of(t.subrange(ks, ke)), vs, ve))
    }
}

/// The directives of `t` from byte `i` on, where the line at `i` has number `n`.
pub open spec fn directives_from(t: Seq<u8>, i: int, n: int) -> Seq<DirectiveModel>
    decreases t.len() - i,
{
    if i < 0 || i >= t.len() {
        seq![]
    } else {
        let e = line_end(t, i);
        let j = next_line(t, e);
        if j <= i {
            seq![]
        } else {
            let rest = directives_from(t, j, n + 1);
            match parse_line(t, i, e) {
                Some((k, vs, ve)) => seq![DirectiveModel { kind: k, value: t.subrange(vs, ve), line: n }]
                    + rest,
                None => rest,
            }
        }
    }
}

/// `t` starts with a UTF-8 byte order mark.
pub open spec fn has_bom(t: Seq<u8>) -> bool {
    t.len() >= 3 && t[0] == 0xEF && t[1] == 0xBB && t[2] == 0xBF
}

/// The directives of a robots.txt file, in file order.
pub open spec fn directives_of(t: Seq<u8>) -> Seq<DirectiveModel> {
    directives_from(t, if has_bom(t) { 3 } else { 0 }, 1)
}


pub(crate) fn find_byte(t: &[u8], lo: usize, hi: usize, c: u8) -> (r: usize)
    requires
        lo <= hi <= t@.len(),
    ensures
        r == first_index(t@, lo as int, hi as int, c),
        lo <= r <= hi,
{
    let mut i: usize = lo;
    while i < hi && t[i] != c
        invariant
            lo <= i <= hi <= t@.len(),
            first_index(t@, lo as int, hi as int, c) == first_index(t@, i as int, hi as int, c),
        decreases hi - i,
    {
        i = i + 1;
    }
    i
}

pub(crate) fn skip_spaces(t: &[u8], lo: usize, hi: usize) -> (r: usize)
    requires
        lo <= hi <= t@.len(),
    ensures
        r == skip_ws(t@, lo as int, hi as int),
        lo <= r <= hi,
{
    let mut i: usize = lo;
    while i < hi && (t[i] == 32 || t[i] == 9)
        invariant
            lo <= i <= hi <= t@.len(),
            skip_ws(t@, lo as int, hi as int) == skip_ws(t@, i as int, hi as int),
        decreases hi - i,
    {
        i = i + 1;
    }
    i
}

pub(crate) fn back_spaces(t: &[u8], lo: usize, hi: usize) -> (r: usize)
    requires
        lo <= hi <= t@.len(),
    ensures
        r == back_ws(t@, lo as int, hi as int),
        lo <= r <= hi,
{
    let mut j: usize = hi;
    while lo < j && (t[j - 1] == 32 || t[j - 1] == 9)
        invariant
            lo <= j <= hi <= t@.len(),
            back_ws(t@, lo as int, hi as int) == back_ws(t@, lo as int, j as int),
        decreases j - lo,
    {
        j = j - 1;
    }
    j
}

pub(crate) fn lower_byte(c: u8) -> (r: u8)
    ensures
        r == lower(c),
{
    if 65 <= c && c <= 90 {
        c + 32
    } else {
        c
    }
}

/// Whether `t[lo..hi]` equals the lower-case word `w`, ignoring ASCII case.
pub(crate) fn ci_equals(t: &[u8], lo: usize, hi: usize, w: &[u8]) -> (r: bool)
    requires
        lo <= hi <= t@.len(),
    ensures
        r == ci_eq(t@.subrange(lo as int, hi as int), w@),
{
    if hi - lo != w.len() {
        return false;
    }
    let mut i: usize = 0;
    while i < w.len()
        invariant
            hi - lo == w@.len(),
            lo <= hi <= t@.len(),
            forall|k: int| 0 <= k < i ==> lower(#[trigger] t@[lo + k]) == w@[k],
        decreases w@.len() - i,
    {
        if lower_byte(t[lo + i]) != w[i] {
            assert(lower(t@.subrange(lo as int, hi as int)[i as int]) != w@[i as int]);
            return false;
        }
        i = i + 1;
    }
    assert forall|k: int| 0 <= k < w@.len() implies lower(
        #[trigger] t@.subrange(lo as int, hi as int)[k],
    ) == w@[k] by {
        assert(t@.subrange(lo as int, hi as int)[k] == t@[lo + k]);
    }
    true
}

fn classify(t: &[u8], lo: usize, hi: usize) -> (r: DirectiveKind)
    requires
        lo <= hi <= t@.len(),
    ensures
        r == kind_of(t@.subrange(lo as int, hi as int)),
{
    let ua: Vec<u8> = vec![117u8, 115, 101, 114, 45, 97, 103, 101, 110, 116];
    let al: Vec<u8> = vec![97u8, 108, 108, 111, 119];
    let di: Vec<u8> = vec![100u8, 105, 115, 97, 108, 108, 111, 119];
    let si: Vec<u8> = vec![115u8, 105, 116, 101, 109, 97, 112];
    let cd: Vec<u8> = vec![99u8, 114, 97, 119, 108, 45, 100, 101, 108, 97, 121];
    let rr: Vec<u8> = vec![114u8, 101, 113, 117, 101, 115, 116, 45, 114, 97, 116, 101];
    let cs: Vec<u8> = vec![99u8, 111, 110, 116, 101, 110, 116, 45, 115, 105, 103, 110, 97, 108];
    assert(ua@ =~= kw_user_agent());
    assert(al@ =~= kw_allow());
    assert(di@ =~= kw_disallow());
    assert(si@ =~= kw_sitemap());
    assert(cd@ =~= kw_crawl_delay());
    assert(rr@ =~= kw_request_rate());
    assert(cs@ =~= kw_content_signal());
    if ci_equals(t, lo, hi, ua.as_slice()) {
        DirectiveKind::UserAgent
    } else if ci_equals(t, lo, hi, al.as_slice()) {
        DirectiveKind::Allow
    } else if ci_equals(t, lo, hi, di.as_slice()) {
        DirectiveKind::Disallow
    } else if ci_equals(t, lo, hi, si.as_slice()) {
        DirectiveKind::Sitemap
    } else if ci_equals(t, lo, hi, cd.as_slice()) {
        DirectiveKind::CrawlDelay
    } else if ci_equals(t, lo, hi, rr.as_slice()) {
        DirectiveKind::RequestRate
    } else if ci_equals(t, lo, hi, cs.as_slice()) {
        DirectiveKind::ContentSignal
    } else {
        DirectiveKind::Unknown
    }
}

/// The directive on the line `t[lo..hi]`, if it holds one: its kind and the
/// bounds of its trimmed value.
pub fn parse_line_at(t: &[u8], lo: usize, hi: usize) -> (r: Option<(DirectiveKind, usize, usize)>)
    requires
        lo <= hi <= t@.len(),
    ensures
        match r {
            Some((k, vs, ve)) => parse_line(t@, lo as int, hi as int) == Some(
                (k, vs as int, ve as int),
            ) && vs <= ve <= hi,
            None => parse_line(t@, lo as int, hi as int) is None,
        },
{
    let c = find_byte(t, lo, hi, 35);
    let colon = find_byte(t, lo, c, 58);
    if colon >= c {
        return None;
    }
    let ks = skip_spaces(t, lo, colon);
    let ke = back_spaces(t, ks, colon);
    if ks >= ke {
        return None;
    }
    let vs = skip_spaces(t, colon + 1, c);
    let ve = back_spaces(t, vs, c);
    Some((classify(t, ks, ke), vs, ve))
}

/// Finds the end of the line that starts at `i`.
fn find_line_end(t: &[u8], i: usize) -> (r: usize)
    requires
        i <= t@.len(),
    ensures
        r == line_end(t@, i as int),
        i <= r <= t@.len(),
{
    let mut e: usize = i;
    while e < t.len() && t[e] != 10 && t[e] != 13
        invariant
            i <= e <= t@.len(),
            line_end(t@, i as int) == line_end(t@, e as int),
        decreases t@.len() - e,
    {
        e = e + 1;
    }
    e
}

/// Splits a robots.txt file into its directives, in file order. Lines end at
/// `\n`, `\r` or `\r\n`; a leading byte order mark is skipped; lines that hold
/// no `key: value` pair are passed over.
pub fn parse_directives(t: &[u8]) -> (r: Vec<Directive>)
    ensures
        r@.map_values(|d: Directive| d@) == directives_of(t@),
{
    let mut out: Vec<Directive> = Vec::new();
    let mut i: usize = if t.len() >= 3 && t[0] == 0xEF && t[1] == 0xBB && t[2] == 0xBF {
        3
    } else {
        0
    };
    let mut done: usize = 0;
    while i < t.len()
        invariant
            i <= t@.len(),
            done <= i,
            out@.map_values(|d: Directive| d@) + directives_from(t@, i as int, done + 1)
                == directives_of(t@),
        decreases t@.len() - i,
    {
        let e = find_line_end(t, i);
        let j: usize = if e >= t.len() {
            t.len()
        } else if t[e] == 13 && e + 1 < t.len() && t[e + 1] == 10 {
            e + 2
        } else {
            e + 1
        };
        assert(j == next_line(t@, e as int));
        let ghost prev = out@.map_values(|d: Directive| d@);
        match parse_line_at(t, i, e) {
            Some((k, vs, ve)) => {
                let d = Directive { kind: k, value: slice_to_vec(slice_subrange(t, vs, ve)), line: done + 1 };
                out.push(d);
                assert(out@.map_values(|d: Directive| d@) =~= prev.push(d@));
                assert(directives_from(t@, i as int, done + 1) == seq![d@] + directives_from(t@, j as int, done + 2));
                assert(prev.push(d@) + directives_from(t@, j as int, done + 2) =~= prev + (seq![d@] + directives_from(t@, j as int, done + 2)));
            },
            None => {},
        }
        i = j;
        done = done + 1;
    }
    assert(directives_from(t@, i as int, done + 1) =~= Seq::<DirectiveModel>::empty());
    assert(out@.map_values(|d: Directive| d@) + Seq::<DirectiveModel>::empty() =~= out@.map_values(|d: Directive| d@));
    out
}

} // verus!
