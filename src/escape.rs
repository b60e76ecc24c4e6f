//! Normal form of patterns and paths before matching: every byte past ASCII
//! becomes `%XX`, and the hex digits of an existing `%xx` escape become upper case.
use vstd::prelude::*;

verus! {

pub open spec fn is_hex(c: u8) -> bool {
    (48 <= c <= 57) || (65 <= c <= 70) || (97 <= c <= 102)
}

/// ASCII upper case of a byte.
pub open spec fn upper(c: u8) -> u8 {
    if 97 <= c <= 122 {
        (c - 32) as u8
    } else {
        c
    }
}

/// The upper-case hex digit of `v`, below 16.
pub open spec fn hex_digit(v: u8) -> u8 {
    if v < 10 {
        (48 + v) as u8
    } else {
        (55 + v) as u8
    }
}

/// The normal form of `x` from byte `i` on.
pub open spec fn escaped_from(x: Seq<u8>, i: int) -> Seq<u8>
    decreases x.len() - i,
{
    if i < 0 || i >= x.len() {
        seq![]
    } else if x[i] == 37 && i + 2 < x.len() && is_hex(x[i + 1]) && is_hex(x[i + 2]) {
        seq![37u8, upper(x[i + 1]), upper(x[i + 2])] + escaped_from(x, i + 3)
    } else if x[i] >= 128 {
        seq![37u8, hex_digit(x[i] / 16), hex_digit(x[i] % 16)] + escaped_from(x, i + 1)
    } else {
        seq![x[i]] + escaped_from(x, i + 1)
    }
}

/// The normal form of `x`.
pub open spec fn escaped(x: Seq<u8>) -> Seq<u8> {
    escaped_from(x, 0)
}

fn is_hex_byte(c: u8) -> (r: bool)
    ensures
        r == is_hex(c),
{
    (48 <= c && c <= 57) || (65 <= c && c <= 70) || (97 <= c && c <= 102)
}

fn upper_byte(c: u8) -> (r: u8)
    ensures
        r == upper(c),
{
    if 97 <= c && c <= 122 {
        c - 32
    } else {
        c
    }
}

fn hex_digit_of(v: u8) -> (r: u8)
    requires
        v < 16,
    ensures
        r == hex_digit(v),
{
    if v < 10 {
        48 + v
    } else {
        55 + v
    }
}

/// Puts `x` in normal form for matching.
pub fn escape(x: &[u8]) -> (r: Vec<u8>)
    ensures
        r@ == escaped(x@),
{
    let mut out: Vec<u8> = Vec::new();
    let mut i: usize = 0;
    while i < x.len()
        invariant
            i <= x@.len(),
            out@ + escaped_from(x@, i as int) == escaped(x@),
        decreases x@.len() - i,
    {
        let ghost o = out@;
        let c = x[i];
        if c == 37 && x.len() - i > 2 && is_hex_byte(x[i + 1]) && is_hex_byte(x[i + 2]) {
            out.push(37);
            out.push(upper_byte(x[i + 1]));
            out.push(upper_byte(x[i + 2]));
            assert(out@ + escaped_from(x@, i + 3) =~= o + escaped_from(x@, i as int));
            i = i + 3;
        } else if c >= 128 {
            out.push(37);
            out.push(hex_digit_of(c / 16));
            out.push(hex_digit_of(c % 16));
            assert(out@ + escaped_from(x@, i + 1) =~= o + escaped_from(x@, i as int));
            i = i + 1;
        } else {
            out.push(c);
            assert(out@ + escaped_from(x@, i + 1) =~= o + escaped_from(x@, i as int));
            i = i + 1;
        }
    }
    assert(out@ + escaped_from(x@, i as int) =~= out@);
    out
}

} // verus!
