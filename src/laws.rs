//! Laws of the engine, stated over the models and proved.
use vstd::prelude::*;
use crate::directive::{back_ws, directives_of, first_index, is_ws, parse_line, skip_ws};
use crate::groups::groups_of;
use crate::groups::{GroupModel, RuleModel};
use crate::matcher::{beats, best_group_upto, group_score, outcome_of, winner_upto, MatchOutcome};
use crate::pattern::pattern_matches;

verus! {

/// The deciding rule is a matching rule that no matching rule beats: the
/// longest pattern wins, an Allow wins over a Disallow of the same length, and
/// a rule earlier in the file wins only when it is more specific. No rule
/// decides exactly when none matches.
pub proof fn lemma_most_specific_rule_wins(rules: Seq<RuleModel>, path: Seq<u8>, n: int)
    requires
        0 <= n <= rules.len(),
    ensures
        (winner_upto(rules, path, n) < 0) == (forall|k: int|
            0 <= k < n ==> !pattern_matches(#[trigger] rules[k].pattern, path)),
        winner_upto(rules, path, n) >= 0 ==> {
            let w = winner_upto(rules, path, n);
            &&& w < n
            &&& pattern_matches(rules[w].pattern, path)
            &&& forall|k: int|
                0 <= k < n && pattern_matches(#[trigger] rules[k].pattern, path) ==> !beats(
                    rules[k],
                    rules[w],
                ) && (k < w ==> beats(rules[w], rules[k]))
        },
    decreases n,
{
    if n > 0 {
        lemma_most_specific_rule_wins(rules, path, n - 1);
        let b = winner_upto(rules, path, n - 1);
        let w = winner_upto(rules, path, n);
        if w < 0 {
            assert forall|k: int| 0 <= k < n implies !pattern_matches(
                #[trigger] rules[k].pattern,
                path,
            ) by {
                if k < n - 1 {
                    assert(!pattern_matches(rules[k].pattern, path));
                }
            }
        } else {
            assert forall|k: int|
                0 <= k < n && pattern_matches(#[trigger] rules[k].pattern, path) implies !beats(
                rules[k],
                rules[w],
            ) && (k < w ==> beats(rules[w], rules[k])) by {
                if k < n - 1 {
                    assert(b >= 0);
                    assert(!beats(rules[k], rules[b]));
                }
            }
            if b >= 0 {
                assert(pattern_matches(rules[b].pattern, path));
            }
        }
    }
}

/// The group chosen by name scores highest for the agent among the first `n`
/// groups, and strictly higher than every group before it; no group is chosen
/// by name exactly when none names the agent.
pub proof fn lemma_longest_agent_token_wins(gs: Seq<GroupModel>, a: Seq<u8>, n: int)
    requires
        0 <= n <= gs.len(),
    ensures
        (best_group_upto(gs, a, n) < 0) == (forall|k: int|
            0 <= k < n ==> group_score(#[trigger] gs[k], a) == 0),
        best_group_upto(gs, a, n) >= 0 ==> {
            let b = best_group_upto(gs, a, n);
            &&& b < n
            &&& group_score(gs[b], a) > 0
            &&& forall|k: int|
                0 <= k < n ==> group_score(#[trigger] gs[k], a) <= group_score(gs[b], a) && (k < b
                    ==> group_score(gs[k], a) < group_score(gs[b], a))
        },
    decreases n,
{
    if n > 0 {
        lemma_longest_agent_token_wins(gs, a, n - 1);
        let p = best_group_upto(gs, a, n - 1);
        let b = best_group_upto(gs, a, n);
        if b >= 0 {
            assert forall|k: int| 0 <= k < n implies group_score(#[trigger] gs[k], a)
                <= group_score(gs[b], a) && (k < b ==> group_score(gs[k], a) < group_score(
                gs[b],
                a,
            )) by {
                if k < n - 1 && p >= 0 {
                    assert(group_score(gs[k], a) <= group_score(gs[p], a));
                }
                if k < n - 1 && p < 0 {
                    assert(group_score(gs[k], a) == 0);
                }
            }
        } else {
            assert forall|k: int| 0 <= k < n implies group_score(#[trigger] gs[k], a) == 0 by {
                if k < n - 1 {
                    assert(group_score(gs[k], a) == 0);
                }
            }
        }
    }
}

/// An empty robots.txt allows every URL to every agent, with no matching line.
pub proof fn lemma_empty_file_allows(agent: Seq<u8>, url: Seq<u8>)
    ensures
        outcome_of(seq![], agent, url).allowed,
        outcome_of(seq![], agent, url).matching_line == 0,
{
    let t = Seq::<u8>::empty();
    assert(directives_of(t) =~= seq![]);
    assert(groups_of(t) =~= seq![]);
}

/// A file whose lines hold no directive answers every query as the empty file does.
pub proof fn lemma_no_directives_like_empty(t: Seq<u8>, agent: Seq<u8>, url: Seq<u8>)
    requires
        directives_of(t).len() == 0,
    ensures
        outcome_of(t, agent, url) == outcome_of(seq![], agent, url),
{
    let e = Seq::<u8>::empty();
    assert(directives_of(e) =~= seq![]);
    assert(groups_of(t) =~= seq![]);
    assert(groups_of(e) =~= seq![]);
}

/// Two queries with the same file, agent and URL have the same outcome.
pub proof fn lemma_deterministic(t: Seq<u8>, agent: Seq<u8>, url: Seq<u8>, o1: MatchOutcome, o2: MatchOutcome)
    requires
        o1 == outcome_of(t, agent, url),
        o2 == outcome_of(t, agent, url),
    ensures
        o1 == o2,
{
}

/// A line with no colon holds no directive.
pub proof fn lemma_no_colon_no_directive(t: Seq<u8>, lo: int, hi: int)
    requires
        0 <= lo <= hi <= t.len(),
        forall|i: int| lo <= i < hi ==> t[i] != 58,
    ensures
        parse_line(t, lo, hi) is None,
{
    let c = first_index(t, lo, hi, 35);
    lemma_first_index_bounds(t, lo, hi, 35);
    lemma_first_index_absent(t, lo, c, 58);
}

/// What a line holds depends on that line's bytes alone: two lines with the
/// same bytes, wherever they stand and whatever surrounds them (a cut-off
/// UTF-8 sequence, a line without a colon), hold the same directive.
pub proof fn lemma_line_reads_only_itself(
    t1: Seq<u8>,
    lo1: int,
    hi1: int,
    t2: Seq<u8>,
    lo2: int,
    hi2: int,
)
    requires
        0 <= lo1 <= hi1 <= t1.len(),
        0 <= lo2 <= hi2 <= t2.len(),
        t1.subrange(lo1, hi1) == t2.subrange(lo2, hi2),
    ensures
        match (parse_line(t1, lo1, hi1), parse_line(t2, lo2, hi2)) {
            (None, None) => true,
            (Some((k1, s1, e1)), Some((k2, s2, e2))) => k1 == k2 && t1.subrange(s1, e1)
                == t2.subrange(s2, e2),
            _ => false,
        },
{
    let d = lo2 - lo1;
    assert(t1.subrange(lo1, hi1).len() == hi1 - lo1);
    assert(t2.subrange(lo2, hi2).len() == hi2 - lo2);
    assert(hi2 == hi1 + d);
    assert forall|k: int| lo1 <= k < hi1 implies t2[k + d] == t1[k] by {
        assert(t1.subrange(lo1, hi1)[k - lo1] == t1[k]);
        assert(t2.subrange(lo2, hi2)[k - lo1] == t2[k + d]);
    }
    let c = first_index(t1, lo1, hi1, 35);
    lemma_first_index_bounds(t1, lo1, hi1, 35);
    lemma_first_index_shift(t1, t2, lo1, hi1, d, 35);
    let colon = first_index(t1, lo1, c, 58);
    lemma_first_index_bounds(t1, lo1, c, 58);
    lemma_first_index_shift(t1, t2, lo1, c, d, 58);
    let ks = skip_ws(t1, lo1, colon);
    lemma_skip_ws_spaces(t1, lo1, colon);
    lemma_skip_ws_shift(t1, t2, lo1, colon, d);
    lemma_back_ws_bounds(t1, ks, colon);
    lemma_back_ws_shift(t1, t2, ks, colon, d);
    let ke = back_ws(t1, ks, colon);
    if colon < c {
        let vs = skip_ws(t1, colon + 1, c);
        lemma_skip_ws_spaces(t1, colon + 1, c);
        lemma_skip_ws_shift(t1, t2, colon + 1, c, d);
        lemma_back_ws_bounds(t1, vs, c);
        lemma_back_ws_shift(t1, t2, vs, c, d);
        let ve = back_ws(t1, vs, c);
        assert(t1.subrange(ks, ke) =~= t2.subrange(ks + d, ke + d));
        assert(t1.subrange(vs, ve) =~= t2.subrange(vs + d, ve + d));
    }
}

proof fn lemma_first_index_shift(t1: Seq<u8>, t2: Seq<u8>, lo: int, hi: int, d: int, b: u8)
    requires
        lo <= hi,
        forall|k: int| lo <= k < hi ==> t2[k + d] == t1[k],
    ensures
        first_index(t2, lo + d, hi + d, b) == first_index(t1, lo, hi, b) + d,
    decreases hi - lo,
{
    if lo < hi {
        assert(t2[lo + d] == t1[lo]);
        lemma_first_index_shift(t1, t2, lo + 1, hi, d, b);
        assert(lo + 1 + d == lo + d + 1);
    }
}

proof fn lemma_skip_ws_shift(t1: Seq<u8>, t2: Seq<u8>, lo: int, hi: int, d: int)
    requires
        lo <= hi,
        forall|k: int| lo <= k < hi ==> t2[k + d] == t1[k],
    ensures
        skip_ws(t2, lo + d, hi + d) == skip_ws(t1, lo, hi) + d,
    decreases hi - lo,
{
    if lo < hi {
        assert(t2[lo + d] == t1[lo]);
        lemma_skip_ws_shift(t1, t2, lo + 1, hi, d);
        assert(lo + 1 + d == lo + d + 1);
    }
}

proof fn lemma_back_ws_shift(t1: Seq<u8>, t2: Seq<u8>, lo: int, hi: int, d: int)
    requires
        lo <= hi,
        forall|k: int| lo <= k < hi ==> t2[k + d] == t1[k],
    ensures
        back_ws(t2, lo + d, hi + d) == back_ws(t1, lo, hi) + d,
    decreases hi - lo,
{
    if lo < hi {
        assert(t2[hi - 1 + d] == t1[hi - 1]);
        lemma_back_ws_shift(t1, t2, lo, hi - 1, d);
        assert(hi - 1 + d == hi + d - 1);
    }
}

proof fn lemma_back_ws_bounds(t: Seq<u8>, lo: int, hi: int)
    requires
        lo <= hi,
    ensures
        lo <= back_ws(t, lo, hi) <= hi,
    decreases hi - lo,
{
    if lo < hi && is_ws(t[hi - 1]) {
        lemma_back_ws_bounds(t, lo, hi - 1);
    }
}

/// A line whose first byte past spaces and tabs is `#` holds no directive.
pub proof fn lemma_comment_line_no_directive(t: Seq<u8>, lo: int, hi: int)
    requires
        0 <= lo <= hi <= t.len(),
        skip_ws(t, lo, hi) < hi,
        t[skip_ws(t, lo, hi)] == 35,
    ensures
        parse_line(t, lo, hi) is None,
{
    let s = skip_ws(t, lo, hi);
    lemma_skip_ws_spaces(t, lo, hi);
    lemma_first_index_before(t, lo, hi, 35, s);
    let c = first_index(t, lo, hi, 35);
    lemma_first_index_bounds(t, lo, hi, 35);
    lemma_first_index_absent(t, lo, c, 58);
}

proof fn lemma_first_index_bounds(t: Seq<u8>, lo: int, hi: int, b: u8)
    requires
        lo <= hi,
    ensures
        lo <= first_index(t, lo, hi, b) <= hi,
    decreases hi - lo,
{
    if lo < hi && t[lo] != b {
        lemma_first_index_bounds(t, lo + 1, hi, b);
    }
}

proof fn lemma_first_index_absent(t: Seq<u8>, lo: int, hi: int, b: u8)
    requires
        lo <= hi,
        forall|i: int| lo <= i < hi ==> t[i] != b,
    ensures
        first_index(t, lo, hi, b) == hi,
    decreases hi - lo,
{
    if lo < hi {
        lemma_first_index_absent(t, lo + 1, hi, b);
    }
}

proof fn lemma_first_index_before(t: Seq<u8>, lo: int, hi: int, b: u8, s: int)
    requires
        lo <= s < hi,
        t[s] == b,
        forall|i: int| lo <= i < s ==> t[i] != b,
    ensures
        first_index(t, lo, hi, b) == s,
    decreases s - lo,
{
    if lo < s {
        lemma_first_index_before(t, lo + 1, hi, b, s);
    }
}

proof fn lemma_skip_ws_spaces(t: Seq<u8>, lo: int, hi: int)
    requires
        lo <= hi,
    ensures
        lo <= skip_ws(t, lo, hi) <= hi,
        forall|i: int| lo <= i < skip_ws(t, lo, hi) ==> is_ws(#[trigger] t[i]),
    decreases hi - lo,
{
    if lo < hi && is_ws(t[lo]) {
        lemma_skip_ws_spaces(t, lo + 1, hi);
    }
}

} // verus!
