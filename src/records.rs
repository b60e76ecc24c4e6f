//! The sample-file format: records, each a little-endian `u32` length and that many bytes.
use vstd::prelude::*;
use vstd::slice::{slice_subrange, slice_to_vec};

verus! {

/// The little-endian 32-bit number in `b[i..i + 4]`.
pub open spec fn le_u32(b: Seq<u8>, i: int) -> nat {
    (b[i] + b[i + 1] * 256 + b[i + 2] * 65536 + b[i + 3] * 16777216) as nat
}

/// The records of `b` from byte `i` on. Fewer than four bytes left end the
/// list; a record longer than what is left makes the whole input invalid (`None`).
pub open spec fn records_from(b: Seq<u8>, i: int) -> Option<Seq<Seq<u8>>>
    decreases b.len() - i,
{
    if i < 0 || i + 4 > b.len() {
        Some(seq![])
    } else {
        let s = i + 4;
        let n = le_u32(b, i);
        if s + n > b.len() {
            None
        } else {
            match records_from(b, s + n) {
                Some(rest) => Some(seq![b.subrange(s, s + n)] + rest),
                None => None,
            }
        }
    }
}

/// Splits a sample file into its records, or `None` if the last one is cut short.
pub fn split_records(b: &[u8]) -> (r: Option<Vec<Vec<u8>>>)
    ensures
        match r {
            Some(v) => records_from(b@, 0) == Some(v@.map_values(|x: Vec<u8>| x@)),
            None => records_from(b@, 0) is None,
        },
{
    let mut out: Vec<Vec<u8>> = Vec::new();
    let mut i: usize = 0;
    while i <= b.len() && b.len() - i >= 4
        invariant
            i <= b@.len(),
            records_from(b@, 0) == match records_from(b@, i as int) {
                Some(rest) => Some(out@.map_values(|x: Vec<u8>| x@) + rest),
                None => None::<Seq<Seq<u8>>>,
            },
        decreases b@.len() - i,
    {
        let n: u64 = b[i] as u64 + b[i + 1] as u64 * 256 + b[i + 2] as u64 * 65536 + b[i + 3] as u64
            * 16777216;
        assert(n == le_u32(b@, i as int));
        let s: usize = i + 4;
        if n > (b.len() - s) as u64 {
            return None;
        }
        let e: usize = s + n as usize;
        let rec = slice_to_vec(slice_subrange(b, s, e));
        let ghost prev = out@.map_values(|x: Vec<u8>| x@);
        let ghost rest = records_from(b@, e as int);
        out.push(rec);
        assert(out@.map_values(|x: Vec<u8>| x@) =~= prev.push(rec@));
        proof {
            if rest is Some {
                let rs = rest->Some_0;
                assert(prev.push(rec@) + rs =~= prev + (seq![rec@] + rs));
            }
        }
        i = e;
    }
    assert(records_from(b@, i as int) == Some(Seq::<Seq<u8>>::empty()));
    assert(out@.map_values(|x: Vec<u8>| x@) + Seq::<Seq<u8>>::empty() =~= out@.map_values(
        |x: Vec<u8>| x@,
    ));
    Some(out)
}

} // verus!
