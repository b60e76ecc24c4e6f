//! Allow/Disallow pattern matching with `*` wildcards and a final `$` anchor.
use vstd::prelude::*;

verus! {

/// The wildcard byte `*`.
pub const STAR: u8 = 42;

/// The end anchor byte `$`.
pub const DOLLAR: u8 = 36;

/// `p` matches the start of `s`: `*` stands for any run of bytes, and a `$`
/// that ends the pattern asks that nothing of `s` is left.
pub open spec fn pattern_matches(p: Seq<u8>, s: Seq<u8>) -> bool
    decreases p.len(), s.len(),
{
    if p.len() == 0 {
        true
    } else if p[0] == DOLLAR && p.len() == 1 {
        s.len() == 0
    } else if p[0] == STAR {
        pattern_matches(p.skip(1), s) || (s.len() > 0 && pattern_matches(p, s.skip(1)))
    } else {
        s.len() > 0 && s[0] == p[0] && pattern_matches(p.skip(1), s.skip(1))
    }
}

/// One step of `pattern_matches` on the suffixes of `p` and `s` from `i` and `j`.
proof fn lemma_step(p: Seq<u8>, s: Seq<u8>, i: int, j: int)
    requires
        0 <= i < p.len(),
        0 <= j <= s.len(),
    ensures
        pattern_matches(p.skip(i), s.skip(j)) == if p[i] == DOLLAR && i + 1 == p.len() {
            j == s.len()
        } else if p[i] == STAR {
            pattern_matches(p.skip(i + 1), s.skip(j)) || (j < s.len() && pattern_matches(
                p.skip(i),
                s.skip(j + 1),
            ))
        } else {
            j < s.len() && s[j] == p[i] && pattern_matches(p.skip(i + 1), s.skip(j + 1))
        },
{
    assert(p.skip(i).skip(1) =~= p.skip(i + 1));
    if j < s.len() {
        assert(s.skip(j).skip(1) =~= s.skip(j + 1));
    }
}

/// Whether the pattern `pattern` matches the path `path`. Works through a
/// table of suffix matches, one row per pattern byte: time is bounded by the
/// product of the two lengths, however many wildcards the pattern holds.
pub fn path_matches(pattern: &[u8], path: &[u8]) -> (r: bool)
    ensures
        r == pattern_matches(pattern@, path@),
{
    let ghost p = pattern@;
    let ghost s = path@;
    let m = pattern.len();
    let n = path.len();
    let mut next: Vec<bool> = Vec::new();
    while next.len() < n
        invariant
            next@.len() <= n,
            forall|k: int| 0 <= k < next@.len() ==> #[trigger] next@[k],
        decreases n - next@.len(),
    {
        next.push(true);
    }
    let mut next_end = true;
    let mut i: usize = m;
    while i > 0
        invariant
            i <= m == p.len(),
            p == pattern@,
            s == path@,
            n == s.len(),
            next@.len() == n,
            next_end == pattern_matches(p.skip(i as int), s.skip(n as int)),
            forall|k: int| 0 <= k < n ==> #[trigger] next@[k] == pattern_matches(
                p.skip(i as int),
                s.skip(k),
            ),
        decreases i,
    {
        i = i - 1;
        let c = pattern[i];
        let last = i + 1 == m;
        proof {
            lemma_step(p, s, i as int, n as int);
        }
        let cur_end = if c == DOLLAR && last {
            true
        } else if c == STAR {
            next_end
        } else {
            false
        };
        let mut cur: Vec<bool> = next.clone();
        let mut j: usize = n;
        while j > 0
            invariant
                i < m == p.len(),
                p == pattern@,
                s == path@,
                n == s.len(),
                c == p[i as int],
                last == (i + 1 == m),
                j <= n,
                cur@.len() == n,
                next@.len() == n,
                next_end == pattern_matches(p.skip(i + 1), s.skip(n as int)),
                forall|k: int| 0 <= k < n ==> #[trigger] next@[k] == pattern_matches(
                    p.skip(i + 1),
                    s.skip(k),
                ),
                cur_end == pattern_matches(p.skip(i as int), s.skip(n as int)),
                forall|k: int| j <= k < n ==> #[trigger] cur@[k] == pattern_matches(
                    p.skip(i as int),
                    s.skip(k),
                ),
            decreases j,
        {
            j = j - 1;
            proof {
                lemma_step(p, s, i as int, j as int);
            }
            let after = if j + 1 < n {
                cur[j + 1]
            } else {
                cur_end
            };
            let next_after = if j + 1 < n {
                next[j + 1]
            } else {
                next_end
            };
            let v = if c == DOLLAR && last {
                false
            } else if c == STAR {
                next[j] || after
            } else {
                path[j] == c && next_after
            };
            cur.set(j, v);
        }
        next = cur;
        next_end = cur_end;
    }
    assert(p.skip(0) =~= p);
    assert(s.skip(0) =~= s);
    if n == 0 {
        next_end
    } else {
        next[0]
    }
}

} // verus!
