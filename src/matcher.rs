//! The decision engine: selects the group for an agent and resolves Allow/Disallow for a path.
use vstd::prelude::*;
use vstd::string::StringSliceAdditionalSpecFns;
use vstd::slice::slice_subrange;
use crate::directive::{directives_of, first_index, find_byte, lower, lower_byte};
use crate::groups::{
    build_groups, groups_of, groups_view, is_specific, is_specific_token, names_specific_agent,
    Group, GroupModel, Rule, RuleModel,
};
use crate::escape::{escape, escaped};
use crate::pattern::{path_matches, pattern_matches};
use crate::values::{ContentSignal, RequestRate};

verus! {

pub open spec fn is_path_delim(c: u8) -> bool {
    c == 47 || c == 63 || c == 59
}

/// First index from `i` on that holds `/`, `?` or `;`, or the end of `u`.
pub open spec fn first_delim(u: Seq<u8>, i: int) -> int
    decreases u.len() - i,
{
    if 0 <= i < u.len() && !is_path_delim(u[i]) {
        first_delim(u, i + 1)
    } else {
        i
    }
}

/// Where the host ends and the path may begin: after `scheme://` or a leading `//`.
pub open spec fn path_search_start(u: Seq<u8>) -> int {
    let d = first_delim(u, 0);
    if d + 1 < u.len() && u[d] == 47 && u[d + 1] == 47 && (d == 0 || u[d - 1] == 58) {
        d + 2
    } else {
        0
    }
}

/// The path, parameters and query of a URL, without its fragment; `/` when it has none.
pub open spec fn path_of(u: Seq<u8>) -> Seq<u8> {
    let s = path_search_start(u);
    let hash = first_index(u, s, u.len() as int, 35);
    let k = first_delim(u, s);
    if k >= hash {
        seq![47u8]
    } else if u[k] == 47 {
        u.subrange(k, hash)
    } else {
        seq![47u8] + u.subrange(k, hash)
    }
}

pub open spec fn is_alnum(c: u8) -> bool {
    (65 <= c <= 90) || (97 <= c <= 122) || (48 <= c <= 57)
}

/// The group token `tok` names the caller's agent `a`: it starts `a`, ignoring
/// ASCII case, and is not followed there by a letter or digit. So `googlebot`
/// names `Googlebot` and `Googlebot-Image`, not `GooglebotX`.
pub open spec fn token_matches(tok: Seq<u8>, a: Seq<u8>) -> bool {
    &&& is_specific(tok)
    &&& tok.len() <= a.len()
    &&& forall|i: int| 0 <= i < tok.len() ==> lower(#[trigger] a[i]) == tok[i]
    &&& (tok.len() == a.len() || !is_alnum(a[tok.len() as int]))
}

/// Length of the longest of the first `n` tokens that names `a`, or 0.
pub open spec fn agent_score(agents: Seq<Seq<u8>>, a: Seq<u8>, n: int) -> nat
    decreases n,
{
    if n <= 0 {
        0
    } else {
        let best = agent_score(agents, a, n - 1);
        if token_matches(agents[n - 1], a) && agents[n - 1].len() > best {
            agents[n - 1].len()
        } else {
            best
        }
    }
}

pub open spec fn group_score(g: GroupModel, a: Seq<u8>) -> nat {
    agent_score(g.agents, a, g.agents.len() as int)
}

/// Among the first `n` groups, the first one whose score for `a` is highest
/// and positive, or -1.
pub open spec fn best_group_upto(gs: Seq<GroupModel>, a: Seq<u8>, n: int) -> int
    decreases n,
{
    if n <= 0 {
        -1
    } else {
        let b = best_group_upto(gs, a, n - 1);
        let sc = group_score(gs[n - 1], a);
        if sc > 0 && (b < 0 || sc > group_score(gs[b], a)) {
            n - 1
        } else {
            b
        }
    }
}

pub open spec fn has_wildcard(agents: Seq<Seq<u8>>) -> bool {
    exists|i: int| 0 <= i < agents.len() && #[trigger] agents[i] == seq![42u8]
}

/// The first of the first `n` groups that holds the wildcard token, or -1.
pub open spec fn wildcard_upto(gs: Seq<GroupModel>, n: int) -> int
    decreases n,
{
    if n <= 0 {
        -1
    } else {
        let b = wildcard_upto(gs, n - 1);
        if b >= 0 {
            b
        } else if has_wildcard(gs[n - 1].agents) {
            n - 1
        } else {
            -1
        }
    }
}

/// The group that applies to agent `a`: the best group that names it, else
/// the first wildcard group, else none (-1).
pub open spec fn selected_group(gs: Seq<GroupModel>, a: Seq<u8>) -> int {
    let b = best_group_upto(gs, a, gs.len() as int);
    if b >= 0 {
        b
    } else {
        wildcard_upto(gs, gs.len() as int)
    }
}

/// `r` takes precedence over `w`: a longer pattern, or as long and an Allow over a Disallow.
pub open spec fn beats(r: RuleModel, w: RuleModel) -> bool {
    r.pattern.len() > w.pattern.len() || (r.pattern.len() == w.pattern.len() && r.allow
        && !w.allow)
}

/// Among the first `n` rules, the first that matches `path` and that no other
/// matching rule beats, or -1.
pub open spec fn winner_upto(rules: Seq<RuleModel>, path: Seq<u8>, n: int) -> int
    decreases n,
{
    if n <= 0 {
        -1
    } else {
        let b = winner_upto(rules, path, n - 1);
        let r = rules[n - 1];
        if pattern_matches(r.pattern, path) && (b < 0 || beats(r, rules[b])) {
            n - 1
        } else {
            b
        }
    }
}

/// What one query found.
#[derive(Debug, Clone, Copy, PartialEq, Eq, Structural)]
pub struct MatchOutcome {
    pub allowed: bool,
    /// The line of the deciding rule; 0 when no rule matched.
    pub matching_line: usize,
    pub ever_seen_specific_agent: bool,
    /// In milliseconds.
    pub crawl_delay: Option<u64>,
    pub request_rate: Option<RequestRate>,
    pub content_signal: Option<ContentSignal>,
}

/// The outcome with no group and no rule: allowed.
pub open spec fn default_outcome(saw: bool) -> MatchOutcome {
    MatchOutcome {
        allowed: true,
        matching_line: 0,
        ever_seen_specific_agent: saw,
        crawl_delay: None,
        request_rate: None,
        content_signal: None,
    }
}

/// The outcome of the query `url` for the agent `agent` under the robots.txt `t`.
pub open spec fn outcome_of(t: Seq<u8>, agent: Seq<u8>, url: Seq<u8>) -> MatchOutcome {
    let gs = groups_of(t);
    let gi = selected_group(gs, agent);
    let saw = names_specific_agent(directives_of(t));
    if gi < 0 {
        default_outcome(saw)
    } else {
        let g = gs[gi];
        let w = winner_upto(g.rules, escaped(path_of(url)), g.rules.len() as int);
        MatchOutcome {
            allowed: w < 0 || g.rules[w].allow,
            matching_line: if w < 0 { 0 } else { g.rules[w].line as usize },
            ever_seen_specific_agent: saw,
            crawl_delay: g.crawl_delay,
            request_rate: g.request_rate,
            content_signal: g.content_signal,
        }
    }
}


fn find_delim(u: &[u8], i: usize) -> (r: usize)
    requires
        i <= u@.len(),
    ensures
        r == first_delim(u@, i as int),
        i <= r <= u@.len(),
{
    let mut k: usize = i;
    while k < u.len() && u[k] != 47 && u[k] != 63 && u[k] != 59
        invariant
            i <= k <= u@.len(),
            first_delim(u@, i as int) == first_delim(u@, k as int),
        decreases u@.len() - k,
    {
        k = k + 1;
    }
    k
}

/// The part of a URL that rules are matched against: path, parameters and
/// query, without scheme, host or fragment.
pub fn url_path(u: &[u8]) -> (r: Vec<u8>)
    ensures
        r@ == path_of(u@),
{
    let n = u.len();
    let d = find_delim(u, 0);
    let s: usize = if d < n && d + 1 < n && u[d] == 47 && u[d + 1] == 47 && (d == 0 || u[d - 1]
        == 58) {
        d + 2
    } else {
        0
    };
    let hash = find_byte(u, s, n, 35);
    let k = find_delim(u, s);
    if k >= hash {
        let r: Vec<u8> = vec![47u8];
        assert(r@ =~= seq![47u8]);
        r
    } else if u[k] == 47 {
        vstd::slice::slice_to_vec(slice_subrange(u, k, hash))
    } else {
        let mut r: Vec<u8> = vec![47u8];
        let mut j: usize = k;
        while j < hash
            invariant
                k <= j <= hash <= u@.len(),
                r@ =~= seq![47u8] + u@.subrange(k as int, j as int),
            decreases hash - j,
        {
            r.push(u[j]);
            j = j + 1;
            assert(r@ =~= seq![47u8] + u@.subrange(k as int, j as int));
        }
        r
    }
}

fn is_alnum_byte(c: u8) -> (r: bool)
    ensures
        r == is_alnum(c),
{
    (65 <= c && c <= 90) || (97 <= c && c <= 122) || (48 <= c && c <= 57)
}

/// Whether the group token `tok` names the agent `a`.
pub fn token_names_agent(tok: &Vec<u8>, a: &[u8]) -> (r: bool)
    ensures
        r == token_matches(tok@, a@),
{
    if !is_specific_token(tok) || tok.len() > a.len() {
        return false;
    }
    let mut i: usize = 0;
    while i < tok.len()
        invariant
            i <= tok@.len() <= a@.len(),
            forall|k: int| 0 <= k < i ==> lower(#[trigger] a@[k]) == tok@[k],
        decreases tok@.len() - i,
    {
        if lower_byte(a[i]) != tok[i] {
            return false;
        }
        i = i + 1;
    }
    !(tok.len() < a.len() && is_alnum_byte(a[tok.len()]))
}

fn score(g: &Group, a: &[u8]) -> (r: usize)
    ensures
        r == group_score(g@, a@),
{
    let mut best: usize = 0;
    let mut i: usize = 0;
    while i < g.agents.len()
        invariant
            i <= g.agents@.len(),
            best == agent_score(g@.agents, a@, i as int),
        decreases g.agents@.len() - i,
    {
        let tok = &g.agents[i];
        assert(g@.agents[i as int] == tok@);
        if token_names_agent(tok, a) && tok.len() > best {
            best = tok.len();
        }
        i = i + 1;
    }
    best
}

fn holds_wildcard(g: &Group) -> (r: bool)
    ensures
        r == has_wildcard(g@.agents),
{
    let mut i: usize = 0;
    while i < g.agents.len()
        invariant
            i <= g.agents@.len(),
            forall|k: int| 0 <= k < i ==> #[trigger] g@.agents[k] != seq![42u8],
        decreases g.agents@.len() - i,
    {
        let tok = &g.agents[i];
        assert(g@.agents[i as int] == tok@);
        if tok.len() == 1 && tok[0] == 42 {
            assert(tok@ =~= seq![42u8]);
            return true;
        }
        assert(tok@.len() != 1 ==> tok@ != seq![42u8]);
        assert(tok@.len() == 1 && tok@[0] != 42 ==> tok@ != seq![42u8]);
        i = i + 1;
    }
    false
}

/// The index of the group that applies to agent `a`, if any.
pub fn select_group(gs: &Vec<Group>, a: &[u8]) -> (r: Option<usize>)
    ensures
        match r {
            Some(i) => i as int == selected_group(groups_view(gs@), a@) && i < gs@.len(),
            None => selected_group(groups_view(gs@), a@) < 0,
        },
{
    let ghost gv = groups_view(gs@);
    let mut best: Option<usize> = None;
    let mut best_score: usize = 0;
    let mut wild: Option<usize> = None;
    let mut i: usize = 0;
    while i < gs.len()
        invariant
            i <= gs@.len(),
            gv == groups_view(gs@),
            match best {
                Some(b) => b as int == best_group_upto(gv, a@, i as int) && b < i
                    && best_score == group_score(gv[b as int], a@),
                None => best_group_upto(gv, a@, i as int) < 0,
            },
            match wild {
                Some(w) => w as int == wildcard_upto(gv, i as int) && w < i,
                None => wildcard_upto(gv, i as int) < 0,
            },
        decreases gs@.len() - i,
    {
        let g = &gs[i];
        assert(gv[i as int] == g@);
        let sc = score(g, a);
        if sc > 0 && (best.is_none() || sc > best_score) {
            best = Some(i);
            best_score = sc;
        }
        if wild.is_none() && holds_wildcard(g) {
            wild = Some(i);
        }
        i = i + 1;
    }
    assert(gv.len() == gs@.len());
    match best {
        Some(b) => Some(b),
        None => wild,
    }
}

/// The index of the rule that decides for `path`, if any rule matches it.
pub fn winning_rule(rules: &Vec<Rule>, path: &[u8]) -> (r: Option<usize>)
    ensures
        match r {
            Some(i) => i as int == winner_upto(rules@.map_values(|r: Rule| r@), path@, rules@.len() as int)
                && i < rules@.len(),
            None => winner_upto(rules@.map_values(|r: Rule| r@), path@, rules@.len() as int) < 0,
        },
{
    let ghost rv = rules@.map_values(|r: Rule| r@);
    let mut best: Option<usize> = None;
    let mut i: usize = 0;
    while i < rules.len()
        invariant
            i <= rules@.len(),
            rv == rules@.map_values(|r: Rule| r@),
            match best {
                Some(b) => b as int == winner_upto(rv, path@, i as int) && b < i,
                None => winner_upto(rv, path@, i as int) < 0,
            },
        decreases rules@.len() - i,
    {
        let r = &rules[i];
        assert(rv[i as int] == r@);
        if path_matches(r.pattern.as_slice(), path) {
            let better = match best {
                None => true,
                Some(b) => {
                    let w = &rules[b];
                    assert(rv[b as int] == w@);
                    r.pattern.len() > w.pattern.len() || (r.pattern.len() == w.pattern.len()
                        && r.allow && !w.allow)
                },
            };
            if better {
                best = Some(i);
            }
        }
        i = i + 1;
    }
    best
}

/// Parses `robots_txt` and answers whether `agent` may fetch `url`, with the
/// signals of the group that applies.
pub fn evaluate(robots_txt: &[u8], agent: &[u8], url: &[u8]) -> (r: MatchOutcome)
    ensures
        r == outcome_of(robots_txt@, agent@, url@),
{
    let parsed = build_groups(robots_txt);
    let ghost gv = groups_view(parsed.groups@);
    match select_group(&parsed.groups, agent) {
        None => MatchOutcome {
            allowed: true,
            matching_line: 0,
            ever_seen_specific_agent: parsed.saw_specific_agent,
            crawl_delay: None,
            request_rate: None,
            content_signal: None,
        },
        Some(gi) => {
            let g = &parsed.groups[gi];
            assert(gv[gi as int] == g@);
            let path = escape(url_path(url).as_slice());
            match winning_rule(&g.rules, path.as_slice()) {
                None => MatchOutcome {
                    allowed: true,
                    matching_line: 0,
                    ever_seen_specific_agent: parsed.saw_specific_agent,
                    crawl_delay: g.crawl_delay,
                    request_rate: g.request_rate,
                    content_signal: g.content_signal,
                },
                Some(w) => {
                    assert(g@.rules[w as int] == g.rules[w as int]@);
                    MatchOutcome {
                        allowed: g.rules[w].allow,
                        matching_line: g.rules[w].line,
                        ever_seen_specific_agent: parsed.saw_specific_agent,
                        crawl_delay: g.crawl_delay,
                        request_rate: g.request_rate,
                        content_signal: g.content_signal,
                    }
                },
            }
        },
    }
}


/// Answers robots.txt queries and keeps what the last one found.
pub struct RobotsMatcher {
    last: MatchOutcome,
}

impl View for RobotsMatcher {
    type V = MatchOutcome;

    closed spec fn view(&self) -> MatchOutcome {
        self.last
    }
}

impl RobotsMatcher {
    /// A matcher that has answered no query yet.
    pub fn new() -> (r: Self)
        ensures
            r@ == default_outcome(false),
    {
        RobotsMatcher {
            last: MatchOutcome {
                allowed: true,
                matching_line: 0,
                ever_seen_specific_agent: false,
                crawl_delay: None,
                request_rate: None,
                content_signal: None,
            },
        }
    }

    /// Whether `user_agent` may fetch `url` under `robots_txt`; the other
    /// signals of this query are kept for the accessors.
    pub fn is_allowed(&mut self, robots_txt: &str, user_agent: &str, url: &str) -> (r: bool)
        ensures
            final(self)@ == outcome_of(
                robots_txt.spec_bytes(),
                user_agent.spec_bytes(),
                url.spec_bytes(),
            ),
            r == final(self)@.allowed,
    {
        self.last = evaluate(robots_txt.as_bytes(), user_agent.as_bytes(), url.as_bytes());
        self.last.allowed
    }

    /// The line of the rule that decided the last query, or 0 if none matched.
    pub fn matching_line(&self) -> (r: usize)
        ensures
            r == self@.matching_line,
    {
        self.last.matching_line
    }

    /// Whether the last file named some crawler, not only `*`.
    pub fn ever_seen_specific_agent(&self) -> (r: bool)
        ensures
            r == self@.ever_seen_specific_agent,
    {
        self.last.ever_seen_specific_agent
    }

    /// The crawl delay of the applying group, in milliseconds.
    pub fn crawl_delay(&self) -> (r: Option<u64>)
        ensures
            r == self@.crawl_delay,
    {
        self.last.crawl_delay
    }

    /// The request rate of the applying group.
    pub fn request_rate(&self) -> (r: Option<RequestRate>)
        ensures
            r == self@.request_rate,
    {
        self.last.request_rate
    }

    /// The Content-Signal values of the applying group.
    pub fn content_signal(&self) -> (r: Option<ContentSignal>)
        ensures
            r == self@.content_signal,
    {
        self.last.content_signal
    }

    /// Whether AI training is allowed; allowed where nothing is said.
    pub fn allows_ai_train(&self) -> (r: bool)
        ensures
            r == match self@.content_signal {
                Some(c) => c.ai_train != 0,
                None => true,
            },
    {
        match self.last.content_signal {
            Some(c) => c.ai_train != 0,
            None => true,
        }
    }

    /// Whether AI input use is allowed; allowed where nothing is said.
    pub fn allows_ai_input(&self) -> (r: bool)
        ensures
            r == match self@.content_signal {
                Some(c) => c.ai_input != 0,
                None => true,
            },
    {
        match self.last.content_signal {
            Some(c) => c.ai_input != 0,
            None => true,
        }
    }

    /// Whether search indexing is allowed; allowed where nothing is said.
    pub fn allows_search(&self) -> (r: bool)
        ensures
            r == match self@.content_signal {
                Some(c) => c.search != 0,
                None => true,
            },
    {
        match self.last.content_signal {
            Some(c) => c.search != 0,
            None => true,
        }
    }
}

impl Default for RobotsMatcher {
    fn default() -> (r: Self)
        ensures
            r@ == default_outcome(false),
    {
        RobotsMatcher::new()
    }
}

} // verus!
