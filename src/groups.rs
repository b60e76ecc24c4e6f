//! Group building: partitions the directive stream into user-agent groups.
use vstd::prelude::*;
use crate::escape::{escape, escaped};
use crate::directive::{
    directives_of, lower, lower_byte, parse_directives, Directive, DirectiveKind, DirectiveModel,
};
use crate::values::{
    no_signal, parse_content_signal, parse_crawl_delay, parse_delay, parse_rate,
    parse_request_rate, signal_from, ContentSignal, RequestRate,
};

verus! {

/// An Allow (`allow` true) or Disallow pattern and the line it came from.
pub struct Rule {
    /// The pattern in the normal form of `escape`.
    pub pattern: Vec<u8>,
    pub allow: bool,
    pub line: usize,
}

pub struct RuleModel {
    pub pattern: Seq<u8>,
    pub allow: bool,
    pub line: int,
}

impl View for Rule {
    type V = RuleModel;

    open spec fn view(&self) -> RuleModel {
        RuleModel { pattern: self.pattern@, allow: self.allow, line: self.line as int }
    }
}

/// The rules and limits that a run of `User-agent` lines introduces.
pub struct Group {
    /// Agent tokens, lower case; `*` is the wildcard.
    pub agents: Vec<Vec<u8>>,
    /// Rules in file order.
    pub rules: Vec<Rule>,
    /// Crawl delay in milliseconds.
    pub crawl_delay: Option<u64>,
    pub request_rate: Option<RequestRate>,
    pub content_signal: Option<ContentSignal>,
}

pub struct GroupModel {
    pub agents: Seq<Seq<u8>>,
    pub rules: Seq<RuleModel>,
    pub crawl_delay: Option<u64>,
    pub request_rate: Option<RequestRate>,
    pub content_signal: Option<ContentSignal>,
}

impl View for Group {
    type V = GroupModel;

    open spec fn view(&self) -> GroupModel {
        GroupModel {
            agents: self.agents@.map_values(|a: Vec<u8>| a@),
            rules: self.rules@.map_values(|r: Rule| r@),
            crawl_delay: self.crawl_delay,
            request_rate: self.request_rate,
            content_signal: self.content_signal,
        }
    }
}

pub open spec fn groups_view(gs: Seq<Group>) -> Seq<GroupModel> {
    gs.map_values(|g: Group| g@)
}

/// Letters, digits, `-` and `_`: the bytes of a product token.
pub open spec fn is_agent_char(c: u8) -> bool {
    (65 <= c <= 90) || (97 <= c <= 122) || (48 <= c <= 57) || c == 45 || c == 95
}

/// First index from `i` on that is not a product-token byte.
pub open spec fn token_end(v: Seq<u8>, i: int) -> int
    decreases v.len() - i,
{
    if 0 <= i < v.len() && is_agent_char(v[i]) {
        token_end(v, i + 1)
    } else {
        i
    }
}

/// The agent token of a `User-agent` value: `*` for a value that starts with
/// `*`, else its leading product token in lower case (`Googlebot/2.1` gives `googlebot`).
pub open spec fn agent_token(v: Seq<u8>) -> Seq<u8> {
    if v.len() > 0 && v[0] == 42 {
        seq![42u8]
    } else {
        v.take(token_end(v, 0)).map_values(|c: u8| lower(c))
    }
}

/// A token that names a crawler: neither empty nor the wildcard.
pub open spec fn is_specific(tok: Seq<u8>) -> bool {
    tok.len() > 0 && tok != seq![42u8]
}

/// `g` after a directive other than `User-agent`. Patterns are kept in normal
/// form; an empty Disallow is no rule; a value that does not parse changes nothing.
pub open spec fn add_directive(g: GroupModel, d: DirectiveModel) -> GroupModel {
    match d.kind {
        DirectiveKind::Allow => GroupModel {
            rules: g.rules.push(RuleModel { pattern: escaped(d.value), allow: true, line: d.line }),
            ..g
        },
        DirectiveKind::Disallow => if d.value.len() == 0 {
            g
        } else {
            GroupModel {
                rules: g.rules.push(RuleModel { pattern: escaped(d.value), allow: false, line: d.line }),
                ..g
            }
        },
        DirectiveKind::CrawlDelay => match parse_delay(d.value) {
            Some(x) => GroupModel { crawl_delay: Some(x), ..g },
            None => g,
        },
        DirectiveKind::RequestRate => match parse_rate(d.value) {
            Some(x) => GroupModel { request_rate: Some(x), ..g },
            None => g,
        },
        DirectiveKind::ContentSignal => GroupModel {
            content_signal: Some(
                signal_from(
                    d.value,
                    0,
                    match g.content_signal {
                        Some(c) => c,
                        None => no_signal(),
                    },
                ),
            ),
            ..g
        },
        _ => g,
    }
}

/// A group that starts with the agent token `tok`.
pub open spec fn new_group(tok: Seq<u8>) -> GroupModel {
    GroupModel {
        agents: seq![tok],
        rules: seq![],
        crawl_delay: None,
        request_rate: None,
        content_signal: None,
    }
}

/// The groups built so far, and whether the last one still takes `User-agent` lines.
pub struct BuildState {
    pub groups: Seq<GroupModel>,
    pub open: bool,
}

/// One directive's effect: a `User-agent` line adds its token (once) to the
/// last group while that group has seen nothing else, and starts a new group otherwise; any other
/// directive goes to the last group and closes it, or is dropped before the
/// first `User-agent` line.
pub open spec fn build_step(s: BuildState, d: DirectiveModel) -> BuildState {
    if d.kind == DirectiveKind::UserAgent {
        let tok = agent_token(d.value);
        if s.groups.len() > 0 && s.open {
            let g = s.groups.last();
            BuildState {
                groups: s.groups.update(
                    s.groups.len() - 1,
                    if g.agents.contains(tok) {
                        g
                    } else {
                        GroupModel { agents: g.agents.push(tok), ..g }
                    },
                ),
                open: true,
            }
        } else {
            BuildState { groups: s.groups.push(new_group(tok)), open: true }
        }
    } else if s.groups.len() == 0 {
        s
    } else {
        BuildState {
            groups: s.groups.update(s.groups.len() - 1, add_directive(s.groups.last(), d)),
            open: false,
        }
    }
}

/// The state after the first `n` directives of `ds`.
pub open spec fn build_upto(ds: Seq<DirectiveModel>, n: int) -> BuildState
    decreases n,
{
    if n <= 0 {
        BuildState { groups: seq![], open: false }
    } else {
        build_step(build_upto(ds, n - 1), ds[n - 1])
    }
}

/// The groups of a robots.txt file, in file order.
pub open spec fn groups_of(t: Seq<u8>) -> Seq<GroupModel> {
    build_upto(directives_of(t), directives_of(t).len() as int).groups
}

/// Some `User-agent` line of `ds` names a crawler.
pub open spec fn names_specific_agent(ds: Seq<DirectiveModel>) -> bool {
    exists|i: int|
        0 <= i < ds.len() && (#[trigger] ds[i]).kind == DirectiveKind::UserAgent && is_specific(
            agent_token(ds[i].value),
        )
}

/// The parsed groups of one file.
pub struct ParseResult {
    pub groups: Vec<Group>,
    /// Whether some group names a crawler, not only the wildcard.
    pub saw_specific_agent: bool,
}

/// Reads the agent token of a `User-agent` value.
pub fn token_of(v: &[u8]) -> (r: Vec<u8>)
    ensures
        r@ == agent_token(v@),
{
    if v.len() > 0 && v[0] == 42 {
        let r: Vec<u8> = vec![42u8];
        assert(r@ =~= seq![42u8]);
        return r;
    }
    let mut r: Vec<u8> = Vec::new();
    let mut i: usize = 0;
    while i < v.len() && (
        (65 <= v[i] && v[i] <= 90) || (97 <= v[i] && v[i] <= 122) || (48 <= v[i] && v[i] <= 57)
            || v[i] == 45 || v[i] == 95)
        invariant
            i <= v@.len(),
            token_end(v@, 0) == token_end(v@, i as int),
            r@ =~= v@.take(i as int).map_values(|c: u8| lower(c)),
        decreases v@.len() - i,
    {
        r.push(lower_byte(v[i]));
        i = i + 1;
        assert(r@ =~= v@.take(i as int).map_values(|c: u8| lower(c)));
    }
    r
}

pub(crate) fn is_specific_token(tok: &Vec<u8>) -> (r: bool)
    ensures
        r == is_specific(tok@),
{
    if tok.len() == 0 {
        false
    } else if tok.len() == 1 && tok[0] == 42 {
        assert(tok@ =~= seq![42u8]);
        false
    } else {
        assert(tok@.len() != 1 ==> tok@ != seq![42u8]);
        assert(tok@[0] != 42 ==> tok@ != seq![42u8]);
        true
    }
}

fn same_bytes(a: &Vec<u8>, b: &Vec<u8>) -> (r: bool)
    ensures
        r == (a@ == b@),
{
    if a.len() != b.len() {
        return false;
    }
    let mut i: usize = 0;
    while i < a.len()
        invariant
            i <= a@.len() == b@.len(),
            forall|k: int| 0 <= k < i ==> a@[k] == b@[k],
        decreases a@.len() - i,
    {
        if a[i] != b[i] {
            return false;
        }
        i = i + 1;
    }
    assert(a@ =~= b@);
    true
}

/// Whether `tok` is among `agents`.
fn contains_token(agents: &Vec<Vec<u8>>, tok: &Vec<u8>) -> (r: bool)
    ensures
        r == agents@.map_values(|a: Vec<u8>| a@).contains(tok@),
{
    let ghost av = agents@.map_values(|a: Vec<u8>| a@);
    let mut i: usize = 0;
    while i < agents.len()
        invariant
            i <= agents@.len(),
            av == agents@.map_values(|a: Vec<u8>| a@),
            forall|k: int| 0 <= k < i ==> av[k] != tok@,
        decreases agents@.len() - i,
    {
        assert(av[i as int] == agents[i as int]@);
        if same_bytes(&agents[i], tok) {
            return true;
        }
        i = i + 1;
    }
    false
}

/// Applies a directive other than `User-agent` to a group.
fn apply_directive(g: &mut Group, d: &Directive)
    requires
        d.kind != DirectiveKind::UserAgent,
    ensures
        final(g)@ == add_directive(old(g)@, d@),
{
    let ghost g0 = g@;
    match d.kind {
        DirectiveKind::Allow => {
            g.rules.push(Rule { pattern: escape(d.value.as_slice()), allow: true, line: d.line });
            assert(g.rules@.map_values(|r: Rule| r@) =~= g0.rules.push(
                RuleModel { pattern: escaped(d.value@), allow: true, line: d.line as int },
            ));
        },
        DirectiveKind::Disallow => {
            if d.value.len() > 0 {
                g.rules.push(Rule { pattern: escape(d.value.as_slice()), allow: false, line: d.line });
                assert(g.rules@.map_values(|r: Rule| r@) =~= g0.rules.push(
                    RuleModel { pattern: escaped(d.value@), allow: false, line: d.line as int },
                ));
            }
        },
        DirectiveKind::CrawlDelay => {
            match parse_crawl_delay(d.value.as_slice()) {
                Some(x) => {
                    g.crawl_delay = Some(x);
                },
                None => {},
            }
        },
        DirectiveKind::RequestRate => {
            match parse_request_rate(d.value.as_slice()) {
                Some(x) => {
                    g.request_rate = Some(x);
                },
                None => {},
            }
        },
        DirectiveKind::ContentSignal => {
            let acc = match g.content_signal {
                Some(c) => c,
                None => ContentSignal { ai_train: -1, ai_input: -1, search: -1 },
            };
            g.content_signal = Some(parse_content_signal(d.value.as_slice(), acc));
        },
        _ => {},
    }
}


pub open spec fn groups_so_far(done: Seq<Group>, cur: Group, has_cur: bool) -> Seq<GroupModel> {
    groups_view(done) + if has_cur { seq![cur@] } else { seq![] }
}

/// Parses a robots.txt file into its groups.
pub fn build_groups(t: &[u8]) -> (r: ParseResult)
    ensures
        groups_view(r.groups@) == groups_of(t@),
        r.saw_specific_agent == names_specific_agent(directives_of(t@)),
{
    let ds = parse_directives(t);
    let ghost dm = directives_of(t@);
    let mut done: Vec<Group> = Vec::new();
    let mut cur = Group {
        agents: Vec::new(),
        rules: Vec::new(),
        crawl_delay: None,
        request_rate: None,
        content_signal: None,
    };
    let mut has_cur = false;
    let mut open = false;
    let mut saw = false;
    let mut i: usize = 0;
    while i < ds.len()
        invariant
            i <= ds@.len(),
            dm == ds@.map_values(|d: Directive| d@),
            build_upto(dm, i as int) == (BuildState {
                groups: groups_so_far(done@, cur, has_cur),
                open,
            }),
            saw == exists|j: int|
                0 <= j < i && (#[trigger] dm[j]).kind == DirectiveKind::UserAgent && is_specific(
                    agent_token(dm[j].value),
                ),
            !has_cur ==> done@.len() == 0,
        decreases ds@.len() - i,
    {
        let d = &ds[i];
        assert(dm[i as int] == d@);
        let ghost before = groups_so_far(done@, cur, has_cur);
        let ghost saw0 = saw;
        if d.kind == DirectiveKind::UserAgent {
            let tok = token_of(d.value.as_slice());
            if is_specific_token(&tok) {
                saw = true;
            }
            if has_cur && open {
                let ghost c0 = cur@;
                if contains_token(&cur.agents, &tok) {
                    assert(groups_so_far(done@, cur, has_cur) =~= before.update(
                        before.len() - 1,
                        c0,
                    ));
                } else {
                    cur.agents.push(tok);
                    assert(cur@.agents =~= c0.agents.push(agent_token(d@.value)));
                    assert(groups_so_far(done@, cur, has_cur) =~= before.update(
                        before.len() - 1,
                        GroupModel { agents: c0.agents.push(agent_token(d@.value)), ..c0 },
                    ));
                }
            } else {
                if has_cur {
                    let ghost dv = groups_view(done@);
                    let ghost c0 = cur;
                    done.push(cur);
                    assert(groups_view(done@) =~= dv.push(c0@));
                }
                let mut agents: Vec<Vec<u8>> = Vec::new();
                agents.push(tok);
                cur = Group {
                    agents,
                    rules: Vec::new(),
                    crawl_delay: None,
                    request_rate: None,
                    content_signal: None,
                };
                assert(cur@.agents =~= seq![agent_token(d@.value)]);
                assert(cur@.rules =~= Seq::<RuleModel>::empty());
                assert(cur@ == new_group(agent_token(d@.value)));
                has_cur = true;
                assert(groups_so_far(done@, cur, has_cur) =~= before.push(new_group(agent_token(d@.value))));
            }
            open = true;
        } else if has_cur {
            let ghost c0 = cur@;
            apply_directive(&mut cur, d);
            open = false;
            assert(groups_so_far(done@, cur, has_cur) =~= before.update(
                before.len() - 1,
                add_directive(c0, d@),
            ));
        } else {
            assert(before =~= Seq::<GroupModel>::empty());
        }
        i = i + 1;
        proof {
            if saw && !saw0 {
                assert(dm[i - 1].kind == DirectiveKind::UserAgent);
            }
            if saw0 {
                let j = choose|j: int|
                    0 <= j < i - 1 && (#[trigger] dm[j]).kind == DirectiveKind::UserAgent
                        && is_specific(agent_token(dm[j].value));
                assert(dm[j].kind == DirectiveKind::UserAgent);
            }
        }
    }
    if has_cur {
        let ghost dv = groups_view(done@);
        let ghost c0 = cur;
        done.push(cur);
        assert(groups_view(done@) =~= dv.push(c0@));
    } else {
        assert(groups_view(done@) =~= groups_so_far(done@, cur, has_cur));
    }
    ParseResult { groups: done, saw_specific_agent: saw }
}

} // verus!
