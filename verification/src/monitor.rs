//! Upstream recovery monitor decisions: which failover chains exist, which
//! are fully broken, and which nodes to probe.

use vstd::prelude::*;
use crate::config::{PiSwitchConfig, ProfileInfo};
use crate::text::{ascii_lower_seq, join_path, owned, path_join, push_all, str_eq, trim, trim_spec};

verus! {

pub type Chain = Seq<Seq<char>>;

/// A chain's names trimmed, with empty names dropped.
pub open spec fn normalize_chain(c: Seq<Seq<char>>) -> Chain
    decreases c.len(),
{
    if c.len() == 0 {
        Seq::empty()
    } else {
        let r = normalize_chain(c.drop_last());
        let t = trim_spec(c.last());
        if t.len() > 0 {
            r.push(t)
        } else {
            r
        }
    }
}

/// The dedup key of a chain: its names joined with NUL.
pub open spec fn join_key(names: Chain) -> Seq<char>
    decreases names.len(),
{
    if names.len() == 0 {
        Seq::empty()
    } else if names.len() == 1 {
        names[0]
    } else {
        join_key(names.drop_last()) + seq!['\0'] + names.last()
    }
}

/// The dedup keys of the chains collected so far.
pub open spec fn chain_keys(chains: Seq<Chain>) -> Seq<Seq<char>> {
    chains.map_values(|c: Chain| join_key(c))
}

/// Adding one chain: it is normalized, and dropped when it is empty or its
/// key was seen before.
pub open spec fn push_chain_spec(chains: Seq<Chain>, raw: Seq<Seq<char>>) -> Seq<Chain> {
    let n = normalize_chain(raw);
    if n.len() == 0 || chain_keys(chains).contains(join_key(n)) {
        chains
    } else {
        chains.push(n)
    }
}

/// Adding several chains in order.
pub open spec fn push_chains_spec(chains: Seq<Chain>, raws: Seq<Seq<Seq<char>>>) -> Seq<Chain>
    decreases raws.len(),
{
    if raws.len() == 0 {
        chains
    } else {
        push_chain_spec(push_chains_spec(chains, raws.drop_last()), raws.last())
    }
}

/// The provider chains of the failover rules.
pub open spec fn rule_chains(cfg: PiSwitchConfig) -> Seq<Seq<Seq<char>>> {
    cfg.settings.proxy.rules@.map_values(|r: crate::config::FailoverRule| r.providers.deep_view())
}

/// Rule chains, then the legacy failover chain, else, when there are neither
/// rules nor a legacy chain, the legacy target.
pub open spec fn configured_chains(cfg: PiSwitchConfig) -> Seq<Chain> {
    let from_rules = push_chains_spec(Seq::empty(), rule_chains(cfg));
    let proxy = cfg.settings.proxy;
    if proxy.failover@.len() > 0 {
        push_chain_spec(from_rules, proxy.failover.deep_view())
    } else if proxy.rules@.len() == 0 && proxy.target is Some {
        push_chain_spec(from_rules, seq![proxy.target->0@])
    } else {
        from_rules
    }
}

/// Whether `name` is a node of one of `chains`.
pub open spec fn in_chains(chains: Seq<Chain>, name: Seq<char>) -> bool {
    exists|i: int, j: int| 0 <= i < chains.len() && 0 <= j < chains[i].len() && chains[i][j] == name
}

/// Whether a profile is routable on its own: not a proxy profile, and it
/// exposes at least one model.
pub open spec fn routable(p: ProfileInfo) -> bool {
    !p.proxy && p.exposed_count > 0
}

/// Single-node chains for routable profiles not covered by `covered`.
pub open spec fn profile_chains(chains: Seq<Chain>, covered: Seq<Chain>, ps: Seq<ProfileInfo>) -> Seq<
    Chain,
>
    decreases ps.len(),
{
    if ps.len() == 0 {
        chains
    } else {
        let r = profile_chains(chains, covered, ps.drop_last());
        let p = ps.last();
        if !in_chains(covered, p.name@) && routable(p) {
            push_chain_spec(r, seq![p.name@])
        } else {
            r
        }
    }
}

/// Every failover chain of the configuration (see [`extract_chains`]).
pub open spec fn extract_chains_spec(cfg: PiSwitchConfig) -> Seq<Chain> {
    let base = configured_chains(cfg);
    profile_chains(base, base, cfg.profiles@)
}

/// Chains as `extract_chains` keeps them: none empty, no empty name, no two
/// with the same key.
pub open spec fn chains_wf(cs: Seq<Chain>) -> bool {
    &&& forall|i: int| 0 <= i < cs.len() ==> (#[trigger] cs[i]).len() > 0
    &&& forall|i: int, j: int| 0 <= i < cs.len() && 0 <= j < cs[i].len() ==> (#[trigger] cs[i][j]).len() > 0
    &&& forall|i: int, j: int|
        0 <= i < j < cs.len() ==> join_key(#[trigger] cs[i]) != join_key(#[trigger] cs[j])
}

proof fn lemma_normalize_names(c: Seq<Seq<char>>)
    ensures
        forall|j: int| 0 <= j < normalize_chain(c).len() ==> (#[trigger] normalize_chain(c)[j]).len() > 0,
    decreases c.len(),
{
    if c.len() > 0 {
        lemma_normalize_names(c.drop_last());
        let r = normalize_chain(c.drop_last());
        let t = trim_spec(c.last());
        if t.len() > 0 {
            assert forall|j: int| 0 <= j < r.push(t).len() implies (#[trigger] r.push(t)[j]).len() > 0 by {
                if j < r.len() {
                    assert(r.push(t)[j] == r[j]);
                }
            }
        }
    }
}

proof fn lemma_push_chain_wf(chains: Seq<Chain>, raw: Seq<Seq<char>>)
    requires
        chains_wf(chains),
    ensures
        chains_wf(push_chain_spec(chains, raw)),
{
    let n = normalize_chain(raw);
    lemma_normalize_names(raw);
    if !(n.len() == 0 || chain_keys(chains).contains(join_key(n))) {
        let r = chains.push(n);
        assert forall|i: int, j: int| 0 <= i < j < r.len() implies join_key(#[trigger] r[i]) != join_key(
            #[trigger] r[j],
        ) by {
            if j == chains.len() {
                assert(chain_keys(chains)[i] == join_key(chains[i]));
            }
        }
    }
}

proof fn lemma_push_chains_wf(chains: Seq<Chain>, raws: Seq<Seq<Seq<char>>>)
    requires
        chains_wf(chains),
    ensures
        chains_wf(push_chains_spec(chains, raws)),
    decreases raws.len(),
{
    if raws.len() > 0 {
        lemma_push_chains_wf(chains, raws.drop_last());
        lemma_push_chain_wf(push_chains_spec(chains, raws.drop_last()), raws.last());
    }
}

proof fn lemma_profile_chains_wf(chains: Seq<Chain>, covered: Seq<Chain>, ps: Seq<ProfileInfo>)
    requires
        chains_wf(chains),
    ensures
        chains_wf(profile_chains(chains, covered, ps)),
    decreases ps.len(),
{
    if ps.len() > 0 {
        lemma_profile_chains_wf(chains, covered, ps.drop_last());
        lemma_push_chain_wf(profile_chains(chains, covered, ps.drop_last()), seq![ps.last().name@]);
    }
}

/// Every chain `extract_chains` returns is non-empty, none of its names is
/// empty, and no two chains are the same (by their joined names).
pub proof fn lemma_extract_chains_wf(cfg: PiSwitchConfig)
    ensures
        chains_wf(extract_chains_spec(cfg)),
{
    lemma_push_chains_wf(Seq::empty(), rule_chains(cfg));
    let from_rules = push_chains_spec(Seq::empty(), rule_chains(cfg));
    let proxy = cfg.settings.proxy;
    if proxy.failover@.len() > 0 {
        lemma_push_chain_wf(from_rules, proxy.failover.deep_view());
    } else if proxy.rules@.len() == 0 && proxy.target is Some {
        lemma_push_chain_wf(from_rules, seq![proxy.target->0@]);
    }
    lemma_profile_chains_wf(configured_chains(cfg), configured_chains(cfg), cfg.profiles@);
}

fn join_names(names: &Vec<String>) -> (k: String)
    ensures
        k@ == join_key(names.deep_view()),
{
    let mut k = String::new();
    let mut i: usize = 0;
    while i < names.len()
        invariant
            0 <= i <= names.len(),
            k@ == join_key(names.deep_view().take(i as int)),
        decreases names.len() - i,
    {
        let ghost prev = names.deep_view().take(i as int);
        assert(names.deep_view().take(i + 1).drop_last() =~= prev);
        if i > 0 {
            k.push('\0');
        }
        push_all(&mut k, names[i].as_str());
        proof {
            if i == 0 {
                assert(k@ =~= names.deep_view().take(1)[0]);
            } else {
                assert(k@ =~= join_key(prev) + seq!['\0'] + names.deep_view()[i as int]);
            }
        }
        i += 1;
    }
    assert(names.deep_view().take(names.len() as int) =~= names.deep_view());
    k
}

fn normalize(chain: &Vec<String>) -> (r: Vec<String>)
    ensures
        r.deep_view() == normalize_chain(chain.deep_view()),
{
    let mut r: Vec<String> = Vec::new();
    let mut i: usize = 0;
    while i < chain.len()
        invariant
            0 <= i <= chain.len(),
            r.deep_view() == normalize_chain(chain.deep_view().take(i as int)),
        decreases chain.len() - i,
    {
        let ghost prev = r.deep_view();
        assert(chain.deep_view().take(i + 1).drop_last() =~= chain.deep_view().take(i as int));
        let t = trim(chain[i].as_str());
        if !t.as_str().is_empty() {
            r.push(t);
            assert(r.deep_view() =~= prev.push(t@));
        }
        i += 1;
    }
    assert(chain.deep_view().take(chain.len() as int) =~= chain.deep_view());
    r
}

fn contains_string(v: &Vec<String>, s: &str) -> (r: bool)
    ensures
        r == v.deep_view().contains(s@),
{
    let mut i: usize = 0;
    while i < v.len()
        invariant
            0 <= i <= v.len(),
            forall|j: int| 0 <= j < i ==> v.deep_view()[j] != s@,
        decreases v.len() - i,
    {
        if str_eq(v[i].as_str(), s) {
            assert(v.deep_view()[i as int] == s@);
            return true;
        }
        i += 1;
    }
    false
}

/// Add one chain (trimmed, empty names dropped) unless it is empty or an
/// identical chain was added before. `seen` holds the keys of `chains`.
fn push_chain(chains: &mut Vec<Vec<String>>, seen: &mut Vec<String>, chain: &Vec<String>)
    requires
        old(seen).deep_view() == chain_keys(old(chains).deep_view()),
    ensures
        final(chains).deep_view() == push_chain_spec(old(chains).deep_view(), chain.deep_view()),
        final(seen).deep_view() == chain_keys(final(chains).deep_view()),
{
    let names = normalize(chain);
    if names.len() == 0 {
        return;
    }
    let key = join_names(&names);
    if contains_string(seen, key.as_str()) {
        return;
    }
    let ghost old_chains = chains.deep_view();
    let ghost old_seen = seen.deep_view();
    let ghost n = names.deep_view();
    chains.push(names);
    seen.push(key);
    assert(chains.deep_view() =~= old_chains.push(n));
    assert(seen.deep_view() =~= old_seen.push(join_key(n)));
    assert(chain_keys(old_chains.push(n)) =~= chain_keys(old_chains).push(join_key(n)));
}

fn names_contain(chains: &Vec<Vec<String>>, name: &str) -> (r: bool)
    ensures
        r == in_chains(chains.deep_view(), name@),
{
    let ghost cs = chains.deep_view();
    let mut i: usize = 0;
    while i < chains.len()
        invariant
            cs == chains.deep_view(),
            0 <= i <= chains.len(),
            forall|a: int, b: int| 0 <= a < i && 0 <= b < cs[a].len() ==> cs[a][b] != name@,
        decreases chains.len() - i,
    {
        let c = &chains[i];
        let mut j: usize = 0;
        while j < c.len()
            invariant
                cs == chains.deep_view(),
                0 <= i < chains.len(),
                c == chains@[i as int],
                0 <= j <= c.len(),
                forall|a: int, b: int| 0 <= a < i && 0 <= b < cs[a].len() ==> cs[a][b] != name@,
                forall|b: int| 0 <= b < j ==> cs[i as int][b] != name@,
            decreases c.len() - j,
        {
            if str_eq(c[j].as_str(), name) {
                assert(cs[i as int][j as int] == name@);
                return true;
            }
            j += 1;
        }
        i += 1;
    }
    false
}

/// Collect every failover chain from the configuration:
///  1. one chain per failover rule (its providers);
///  2. the legacy global failover chain, else, when there are neither rules
///     nor that chain, the legacy target;
///  3. a single-node chain for every other routable profile (not a proxy
///     profile, exposing models) not already covered by a chain of 1–2.
/// Names are trimmed and empty names dropped; empty and identical chains are
/// skipped.
pub fn extract_chains(config: &PiSwitchConfig) -> (chains: Vec<Vec<String>>)
    ensures
        chains.deep_view() == extract_chains_spec(*config),
{
    let proxy = &config.settings.proxy;
    let mut chains: Vec<Vec<String>> = Vec::new();
    let mut seen: Vec<String> = Vec::new();
    assert(chains.deep_view() =~= Seq::<Chain>::empty());
    assert(seen.deep_view() =~= chain_keys(chains.deep_view()));
    let ghost raws = rule_chains(*config);
    let mut i: usize = 0;
    while i < proxy.rules.len()
        invariant
            proxy == config.settings.proxy,
            raws == rule_chains(*config),
            0 <= i <= proxy.rules.len(),
            chains.deep_view() == push_chains_spec(Seq::empty(), raws.take(i as int)),
            seen.deep_view() == chain_keys(chains.deep_view()),
        decreases proxy.rules.len() - i,
    {
        assert(raws.take(i + 1).drop_last() =~= raws.take(i as int));
        push_chain(&mut chains, &mut seen, &proxy.rules[i].providers);
        i += 1;
    }
    assert(raws.take(proxy.rules.len() as int) =~= raws);
    if proxy.failover.len() > 0 {
        push_chain(&mut chains, &mut seen, &proxy.failover);
    } else if proxy.rules.len() == 0 && proxy.target.is_some() {
        let target = proxy.target.as_ref().unwrap();
        let mut single: Vec<String> = Vec::new();
        single.push(target.clone());
        assert(single.deep_view() =~= seq![target@]);
        push_chain(&mut chains, &mut seen, &single);
    }
    let ghost base = chains.deep_view();
    assert(base == configured_chains(*config));
    let covered = chains.clone();
    assert(covered.deep_view() =~= base);
    let ps = &config.profiles;
    let mut k: usize = 0;
    while k < ps.len()
        invariant
            ps == config.profiles,
            base == configured_chains(*config),
            covered.deep_view() == base,
            0 <= k <= ps.len(),
            chains.deep_view() == profile_chains(base, base, ps@.take(k as int)),
            seen.deep_view() == chain_keys(chains.deep_view()),
        decreases ps.len() - k,
    {
        assert(ps@.take(k + 1).drop_last() =~= ps@.take(k as int));
        let p = &ps[k];
        if !names_contain(&covered, p.name.as_str()) && !p.proxy && p.exposed_count > 0 {
            let mut single: Vec<String> = Vec::new();
            single.push(p.name.clone());
            assert(single.deep_view() =~= seq![p.name@]);
            push_chain(&mut chains, &mut seen, &single);
        }
        k += 1;
    }
    assert(ps@.take(ps.len() as int) =~= ps@);
    chains
}


// ─── Circuit state ─────────────────────────────────────────

/// The circuit-breaker record of one upstream.
#[derive(Debug, Clone)]
pub struct CircuitEntry {
    pub failures: u32,
    /// When the circuit opened (epoch ms); `None` while it is closed.
    pub opened_at: Option<u64>,
    pub last_failure_at: Option<u64>,
    pub last_error: Option<String>,
    pub last_success_at: Option<u64>,
    /// Conversations whose requests failed during the outage.
    pub affected_conversations: Vec<String>,
}

/// Circuit-breaker state per upstream name. The proxy keeps it as a map, so
/// a well-formed store holds at most one entry per name (see [`store_wf`]).
#[derive(Debug, Clone)]
pub struct CircuitStateStore {
    pub providers: Vec<(String, CircuitEntry)>,
}

/// A well-formed store: no name twice.
pub open spec fn store_wf(store: CircuitStateStore) -> bool {
    forall|i: int, j: int|
        0 <= i < j < store.providers@.len() ==> (#[trigger] store.providers@[i]).0@ != (
        #[trigger] store.providers@[j]).0@
}

/// In a well-formed store, an upstream is circuit-open exactly when its one
/// entry has an opening time.
pub proof fn lemma_node_broken_entry(store: CircuitStateStore, k: int)
    requires
        store_wf(store),
        0 <= k < store.providers@.len(),
    ensures
        node_broken(store, store.providers@[k].0@) == store.providers@[k].1.opened_at is Some,
{
    let name = store.providers@[k].0@;
    if node_broken(store, name) {
        let i = choose|i: int|
            0 <= i < store.providers@.len() && #[trigger] store.providers@[i].0@ == name
                && store.providers@[i].1.opened_at is Some;
        if i < k {
            assert(store.providers@[i].0@ != store.providers@[k].0@);
        } else if i > k {
            assert(store.providers@[k].0@ != store.providers@[i].0@);
        }
    }
}

/// Whether upstream `name` is circuit-open: it has an entry whose circuit
/// has opened.
pub open spec fn node_broken(store: CircuitStateStore, name: Seq<char>) -> bool {
    exists|i: int|
        0 <= i < store.providers@.len() && #[trigger] store.providers@[i].0@ == name
            && store.providers@[i].1.opened_at is Some
}

impl CircuitStateStore {
    /// An empty store.
    pub fn new() -> (s: CircuitStateStore)
        ensures
            s.providers@.len() == 0,
            store_wf(s),
    {
        CircuitStateStore { providers: Vec::new() }
    }
}

/// Whether upstream `name` is circuit-open right now.
pub fn is_node_broken(name: &str, circuit: &CircuitStateStore) -> (r: bool)
    ensures
        r == node_broken(*circuit, name@),
{
    let ps = &circuit.providers;
    let mut i: usize = 0;
    while i < ps.len()
        invariant
            ps == circuit.providers,
            0 <= i <= ps.len(),
            forall|j: int|
                0 <= j < i ==> !(#[trigger] ps@[j].0@ == name@ && ps@[j].1.opened_at is Some),
        decreases ps.len() - i,
    {
        if str_eq(ps[i].0.as_str(), name) && ps[i].1.opened_at.is_some() {
            return true;
        }
        i += 1;
    }
    false
}

/// Whether every node of chain `c` is circuit-open.
pub open spec fn chain_broken(circuit: CircuitStateStore, c: Chain) -> bool {
    forall|j: int| 0 <= j < c.len() ==> #[trigger] node_broken(circuit, c[j])
}

/// The chains of `cs` whose every node is circuit-open, in order.
pub open spec fn broken_of(circuit: CircuitStateStore, cs: Seq<Chain>) -> Seq<Chain>
    decreases cs.len(),
{
    if cs.len() == 0 {
        Seq::empty()
    } else if chain_broken(circuit, cs.last()) {
        broken_of(circuit, cs.drop_last()).push(cs.last())
    } else {
        broken_of(circuit, cs.drop_last())
    }
}

/// The broken chains are chains of `cs`, in their order, each with every
/// node circuit-open; and every fully open chain of `cs` is among them.
pub proof fn lemma_broken_of(circuit: CircuitStateStore, cs: Seq<Chain>)
    ensures
        forall|i: int|
            0 <= i < broken_of(circuit, cs).len() ==> chain_broken(circuit, #[trigger] broken_of(circuit, cs)[i])
                && cs.contains(broken_of(circuit, cs)[i]),
        forall|i: int| 0 <= i < cs.len() && chain_broken(circuit, #[trigger] cs[i]) ==> broken_of(circuit, cs).contains(cs[i]),
        broken_of(circuit, cs).len() <= cs.len(),
    decreases cs.len(),
{
    if cs.len() > 0 {
        let prev = cs.drop_last();
        lemma_broken_of(circuit, prev);
        let b = broken_of(circuit, prev);
        let r = broken_of(circuit, cs);
        assert forall|i: int| 0 <= i < r.len() implies chain_broken(circuit, #[trigger] r[i]) && cs.contains(r[i]) by {
            if i < b.len() {
                assert(r[i] == b[i]);
                let k = choose|k: int| 0 <= k < prev.len() && prev[k] == b[i];
                assert(cs[k] == prev[k]);
            } else {
                assert(cs[cs.len() - 1] == cs.last());
            }
        }
        assert forall|i: int| 0 <= i < cs.len() && chain_broken(circuit, #[trigger] cs[i]) implies r.contains(cs[i]) by {
            if i < prev.len() {
                assert(prev[i] == cs[i]);
                assert(b.contains(prev[i]));
                let k = choose|k: int| 0 <= k < b.len() && b[k] == prev[i];
                assert(r[k] == b[k]);
            } else {
                assert(r[r.len() - 1] == cs.last());
            }
        }
    }
}

fn all_broken(chain: &Vec<String>, circuit: &CircuitStateStore) -> (r: bool)
    ensures
        r == chain_broken(*circuit, chain.deep_view()),
{
    let mut i: usize = 0;
    while i < chain.len()
        invariant
            0 <= i <= chain.len(),
            forall|j: int| 0 <= j < i ==> #[trigger] node_broken(*circuit, chain.deep_view()[j]),
        decreases chain.len() - i,
    {
        if !is_node_broken(chain[i].as_str(), circuit) {
            assert(!node_broken(*circuit, chain.deep_view()[i as int]));
            return false;
        }
        i += 1;
    }
    true
}

/// The failover chains whose every node is circuit-open right now.
pub fn broken_chains(config: &PiSwitchConfig, circuit: &CircuitStateStore) -> (r: Vec<Vec<String>>)
    ensures
        r.deep_view() == broken_of(*circuit, extract_chains_spec(*config)),
{
    let chains = extract_chains(config);
    let ghost cs = chains.deep_view();
    let mut r: Vec<Vec<String>> = Vec::new();
    let mut i: usize = 0;
    while i < chains.len()
        invariant
            cs == chains.deep_view(),
            0 <= i <= chains.len(),
            r.deep_view() == broken_of(*circuit, cs.take(i as int)),
        decreases chains.len() - i,
    {
        assert(cs.take(i + 1).drop_last() =~= cs.take(i as int));
        let ghost prev = r.deep_view();
        if all_broken(&chains[i], circuit) {
            r.push(chains[i].clone());
            assert(r.deep_view() =~= prev.push(cs[i as int]));
        }
        i += 1;
    }
    assert(cs.take(chains.len() as int) =~= cs);
    r
}


// ─── Health probe ──────────────────────────────────────────

/// A character allowed in a header name (an RFC 7230 token character):
/// an ASCII letter or digit, or one of ``!#$%&'*+-.^_`|~``.
pub open spec fn header_name_char(c: char) -> bool {
    ||| ('a' <= c && c <= 'z')
    ||| ('A' <= c && c <= 'Z')
    ||| ('0' <= c && c <= '9')
    ||| c == '!' || c == '#' || c == '$' || c == '%' || c == '&' || c == '\'' || c == '*'
    ||| c == '+' || c == '-' || c == '.' || c == '^' || c == '_' || c == '`' || c == '|'
    ||| c == '~'
}

/// The header name `HeaderName::from_bytes` makes of `name`: 1 to 65535
/// token characters, lowercased; `None` for anything else.
pub open spec fn header_name_of(name: Seq<char>) -> Option<Seq<char>> {
    if 1 <= name.len() <= 65535 && forall|i: int| 0 <= i < name.len() ==> #[trigger] header_name_char(
        name[i],
    ) {
        Some(ascii_lower_seq(name))
    } else {
        None
    }
}

/// `reqwest::header::HeaderName::from_bytes` on the bytes of `name`: it maps
/// every byte through its token table (letters lowercased, every other byte
/// than a token character rejected, so any non-ASCII character is rejected)
/// and accepts 1 to 65535 bytes; the result is the lowercased name.
#[verifier::external_body]
fn parse_header_name(name: &str) -> (r: Option<String>)
    ensures
        r.deep_view() == header_name_of(name@),
{
    match reqwest::header::HeaderName::from_bytes(name.as_bytes()) {
        Ok(n) => Some(n.as_str().to_string()),
        Err(_) => None,
    }
}

/// A character `HeaderValue::from_str` accepts: tab, or any character from
/// the space on except DEL (non-ASCII characters encode to bytes >= 0x80,
/// which are accepted).
pub open spec fn header_value_char_ok(c: char) -> bool {
    c == '\t' || ((c as u32) >= 32 && (c as u32) != 127)
}

/// Whether `HeaderValue::from_str` accepts `s`.
pub open spec fn valid_header_value(s: Seq<char>) -> bool {
    forall|i: int| 0 <= i < s.len() ==> #[trigger] header_value_char_ok(s[i])
}

/// `reqwest::header::HeaderValue::from_str(v).is_ok()`: the function accepts a
/// string exactly when every byte is a tab or in 32..=255 other than 127.
#[verifier::external_body]
fn header_value_ok(v: &str) -> (r: bool)
    ensures
        r == valid_header_value(v@),
{
    reqwest::header::HeaderValue::from_str(v).is_ok()
}

/// What `str::to_lowercase` makes of `s` (the Unicode lowercase mapping).
pub uninterp spec fn unicode_lowercase(s: Seq<char>) -> Seq<char>;

/// `str::to_lowercase`; its result is named, not described, except that on
/// ASCII text (where the Unicode lowercase mapping is the ASCII one) it is the
/// ASCII lowercase.
#[verifier::external_body]
fn to_lowercase(s: &str) -> (r: String)
    ensures
        r@ == unicode_lowercase(s@),
        (forall|i: int| 0 <= i < s@.len() ==> (#[trigger] s@[i] as u32) < 128) ==> r@
            == ascii_lower_seq(s@),
{
    s.to_lowercase()
}

pub type HeaderList = Seq<(Seq<char>, Seq<char>)>;

/// Index of the header named `n` at or after `i`, or the length.
pub open spec fn header_index(hs: HeaderList, n: Seq<char>, i: int) -> int
    decreases hs.len() - i,
{
    if i < 0 || i >= hs.len() {
        hs.len() as int
    } else if hs[i].0 == n {
        i
    } else {
        header_index(hs, n, i + 1)
    }
}

/// Whether a header named `n` is set.
pub open spec fn has_header(hs: HeaderList, n: Seq<char>) -> bool {
    header_index(hs, n, 0) < hs.len()
}

/// Setting header `n` to `v` replaces an existing value, else appends.
pub open spec fn set_header_spec(hs: HeaderList, n: Seq<char>, v: Seq<char>) -> HeaderList {
    let k = header_index(hs, n, 0);
    if k < hs.len() {
        hs.update(k, (n, v))
    } else {
        hs.push((n, v))
    }
}

/// The profile's custom headers, in order, each kept when its name and value
/// are valid (later ones replacing earlier ones of the same name).
pub open spec fn custom_headers(raw: HeaderList) -> HeaderList
    decreases raw.len(),
{
    if raw.len() == 0 {
        Seq::empty()
    } else {
        let acc = custom_headers(raw.drop_last());
        let (k, v) = raw.last();
        match header_name_of(k) {
            Some(n) => if valid_header_value(v) {
                set_header_spec(acc, n, v)
            } else {
                acc
            },
            None => acc,
        }
    }
}

/// Whether the profile speaks the Anthropic API.
pub open spec fn is_anthropic_api(api: Seq<char>) -> bool {
    crate::text::contains_seq(unicode_lowercase(api), "anthropic"@)
}

/// The probe's headers: the custom headers, then the credential: `x-api-key`
/// plus a default `anthropic-version` for Anthropic, else a bearer
/// `authorization` header (credentials only when non-empty and valid).
pub open spec fn probe_headers(p: ProfileInfo) -> HeaderList {
    probe_headers_for(p, is_anthropic_api(p.api@))
}

/// Whether all of `s` is ASCII.
pub open spec fn is_ascii_text(s: Seq<char>) -> bool {
    forall|i: int| 0 <= i < s.len() ==> (#[trigger] s[i] as u32) < 128
}

/// The probe's headers when the profile does (`anthropic`) or does not speak
/// the Anthropic API (see [`probe_headers`]).
pub open spec fn probe_headers_for(p: ProfileInfo, anthropic: bool) -> HeaderList {
    let base = custom_headers(p.headers.deep_view());
    let key = p.api_key@;
    if anthropic {
        let h = if key.len() > 0 && valid_header_value(key) {
            set_header_spec(base, "x-api-key"@, key)
        } else {
            base
        };
        if has_header(h, "anthropic-version"@) {
            h
        } else {
            set_header_spec(h, "anthropic-version"@, "2023-06-01"@)
        }
    } else if key.len() > 0 && valid_header_value("Bearer "@ + key) {
        set_header_spec(base, "authorization"@, "Bearer "@ + key)
    } else {
        base
    }
}

/// `s` without trailing `c`s.
pub open spec fn trim_end_char(s: Seq<char>, c: char) -> Seq<char>
    decreases s.len(),
{
    if s.len() > 0 && s.last() == c {
        trim_end_char(s.drop_last(), c)
    } else {
        s
    }
}

/// The probe URL: base URL without trailing slashes, then the probe path
/// with a leading `/`; empty when there is no base URL (the profile cannot be
/// probed).
pub open spec fn probe_url(base_url: Seq<char>, probe_path: Seq<char>) -> Seq<char> {
    let path = if probe_path.len() > 0 && probe_path[0] == '/' {
        probe_path
    } else {
        seq!['/'] + probe_path
    };
    let base = trim_end_char(base_url, '/');
    if base.len() == 0 {
        Seq::empty()
    } else {
        base + path
    }
}

/// A health probe request: `GET url` with `headers`.
#[derive(Debug, Clone)]
pub struct ProbeRequest {
    pub url: String,
    pub headers: Vec<(String, String)>,
}

fn set_header(hs: &mut Vec<(String, String)>, name: String, value: String)
    ensures
        final(hs).deep_view() == set_header_spec(old(hs).deep_view(), name@, value@),
{
    let ghost h0 = hs.deep_view();
    let mut i: usize = 0;
    while i < hs.len() && !str_eq(hs[i].0.as_str(), name.as_str())
        invariant
            h0 == hs.deep_view(),
            0 <= i <= hs.len(),
            header_index(h0, name@, 0) == header_index(h0, name@, i as int),
        decreases hs.len() - i,
    {
        i += 1;
    }
    let ghost n = name@;
    let ghost v = value@;
    if i < hs.len() {
        hs.set(i, (name, value));
        assert(hs.deep_view() =~= h0.update(i as int, (n, v)));
    } else {
        hs.push((name, value));
        assert(hs.deep_view() =~= h0.push((n, v)));
    }
}

fn header_present(hs: &Vec<(String, String)>, name: &str) -> (r: bool)
    ensures
        r == has_header(hs.deep_view(), name@),
{
    let ghost h0 = hs.deep_view();
    let mut i: usize = 0;
    while i < hs.len() && !str_eq(hs[i].0.as_str(), name)
        invariant
            h0 == hs.deep_view(),
            0 <= i <= hs.len(),
            header_index(h0, name@, 0) == header_index(h0, name@, i as int),
        decreases hs.len() - i,
    {
        i += 1;
    }
    i < hs.len()
}

fn trim_end_slashes(s: &str) -> (r: String)
    ensures
        r@ == trim_end_char(s@, '/'),
{
    let v = crate::text::chars_of(s);
    let mut end = v.len();
    assert(s@.take(end as int) =~= s@);
    while end > 0 && v[end - 1] == '/'
        invariant
            v@ == s@,
            0 <= end <= v.len(),
            trim_end_char(s@, '/') == trim_end_char(s@.take(end as int), '/'),
        decreases end,
    {
        assert(s@.take(end as int).drop_last() =~= s@.take(end - 1));
        end -= 1;
    }
    assert(trim_end_char(s@.take(end as int), '/') == s@.take(end as int));
    crate::text::string_of_range(&v, 0, end)
}

/// Build the probe request for one profile: `GET {baseUrl}{probePath}` with
/// the profile's custom headers and its credential (see [`probe_headers`]).
/// The URL is empty when the profile has no base URL.
pub fn build_probe(profile: &ProfileInfo, probe_path: &str) -> (r: ProbeRequest)
    ensures
        r.url@ == probe_url(profile.base_url@, probe_path@),
        r.headers.deep_view() == probe_headers(*profile),
        is_ascii_text(profile.api@) ==> r.headers.deep_view() == probe_headers_for(
            *profile,
            crate::text::contains_seq(ascii_lower_seq(profile.api@), "anthropic"@),
        ),
{
    let mut url = trim_end_slashes(profile.base_url.as_str());
    if !url.as_str().is_empty() {
        let pv = crate::text::chars_of(probe_path);
        if pv.len() == 0 || pv[0] != '/' {
            url.push('/');
        }
        push_all(&mut url, probe_path);
    }
    proof {
        if !(probe_path@.len() > 0 && probe_path@[0] == '/') {
            assert(trim_end_char(profile.base_url@, '/').push('/') + probe_path@ =~= trim_end_char(
                profile.base_url@,
                '/',
            ) + (seq!['/'] + probe_path@));
        }
    }
    let mut headers: Vec<(String, String)> = Vec::new();
    let raw = &profile.headers;
    let ghost rv = raw.deep_view();
    let mut i: usize = 0;
    assert(headers.deep_view() =~= custom_headers(rv.take(0)));
    while i < raw.len()
        invariant
            raw == profile.headers,
            rv == raw.deep_view(),
            0 <= i <= raw.len(),
            headers.deep_view() == custom_headers(rv.take(i as int)),
        decreases raw.len() - i,
    {
        assert(rv.take(i + 1).drop_last() =~= rv.take(i as int));
        let (k, v) = &raw[i];
        match parse_header_name(k.as_str()) {
            Some(n) => {
                if header_value_ok(v.as_str()) {
                    set_header(&mut headers, n, v.clone());
                }
            },
            None => {},
        }
        i += 1;
    }
    assert(rv.take(raw.len() as int) =~= rv);
    let key = &profile.api_key;
    let lower = to_lowercase(profile.api.as_str());
    if crate::text::contains(lower.as_str(), "anthropic") {
        if !key.as_str().is_empty() && header_value_ok(key.as_str()) {
            set_header(&mut headers, owned("x-api-key"), key.clone());
        }
        if !header_present(&headers, "anthropic-version") {
            set_header(&mut headers, owned("anthropic-version"), owned("2023-06-01"));
        }
    } else if !key.as_str().is_empty() {
        let mut bearer = owned("Bearer ");
        push_all(&mut bearer, key.as_str());
        if header_value_ok(bearer.as_str()) {
            set_header(&mut headers, owned("authorization"), bearer);
        }
    }
    ProbeRequest { url, headers }
}

/// Whether a probe URL can be requested at all: it starts with `http`
/// (a profile without a base URL yields one that does not).
pub fn probe_url_usable(url: &str) -> (r: bool)
    ensures
        r == (url@.len() >= 4 && url@.take(4) == "http"@),
{
    proof {
        reveal_strlit("http");
    }
    crate::rawlog::starts_with(url, "http")
}

/// One probe of the recovery monitor: upstream `name` of broken `chain`.
#[derive(Debug, Clone)]
pub struct ProbeTask {
    pub name: String,
    pub chain: Vec<String>,
    pub request: ProbeRequest,
}


pub type ProbeTaskView = (Seq<char>, Chain, Seq<char>, HeaderList);

impl DeepView for ProbeTask {
    type V = ProbeTaskView;

    open spec fn deep_view(&self) -> ProbeTaskView {
        (self.name@, self.chain.deep_view(), self.request.url@, self.request.headers.deep_view())
    }
}

/// The nodes of `cs`, in order, each with its chain.
pub open spec fn nodes_of(cs: Seq<Chain>) -> Seq<(Seq<char>, Chain)>
    decreases cs.len(),
{
    if cs.len() == 0 {
        Seq::empty()
    } else {
        nodes_of(cs.drop_last()) + cs.last().map_values(|n: Seq<char>| (n, cs.last()))
    }
}

/// Index of the first profile named `name` at or after `i`, or the length.
pub open spec fn profile_index(ps: Seq<ProfileInfo>, name: Seq<char>, i: int) -> int
    decreases ps.len() - i,
{
    if i < 0 || i >= ps.len() {
        ps.len() as int
    } else if ps[i].name@ == name {
        i
    } else {
        profile_index(ps, name, i + 1)
    }
}

/// The probes for the nodes `nodes`: each circuit-open node once (at its
/// first occurrence), when it has a profile whose probe URL is not empty.
pub open spec fn plan_of(
    nodes: Seq<(Seq<char>, Chain)>,
    cfg: PiSwitchConfig,
    circuit: CircuitStateStore,
    path: Seq<char>,
) -> Seq<ProbeTaskView>
    decreases nodes.len(),
{
    if nodes.len() == 0 {
        Seq::empty()
    } else {
        let prev = nodes.drop_last();
        let acc = plan_of(prev, cfg, circuit, path);
        let (n, c) = nodes.last();
        let seen = exists|j: int| 0 <= j < prev.len() && #[trigger] prev[j].0 == n;
        let k = profile_index(cfg.profiles@, n, 0);
        if !node_broken(circuit, n) || seen || k >= cfg.profiles@.len() {
            acc
        } else {
            let p = cfg.profiles@[k];
            let url = probe_url(p.base_url@, path);
            if url.len() == 0 {
                acc
            } else {
                acc.push((n, c, url, probe_headers(p)))
            }
        }
    }
}

/// What one monitoring pass probes (see [`probe_plan`]).
pub open spec fn probe_plan_spec(cfg: PiSwitchConfig, circuit: CircuitStateStore, path: Seq<char>) -> Seq<
    ProbeTaskView,
> {
    plan_of(nodes_of(broken_of(circuit, extract_chains_spec(cfg))), cfg, circuit, path)
}

/// The first `k` nodes of chain `c`, each with `c`.
pub open spec fn tagged(c: Chain, k: int) -> Seq<(Seq<char>, Chain)> {
    c.take(k).map_values(|n: Seq<char>| (n, c))
}

/// Whether some node of `nodes` is named `n`.
pub open spec fn occurs_name(nodes: Seq<(Seq<char>, Chain)>, n: Seq<char>) -> bool {
    exists|q: int| 0 <= q < nodes.len() && #[trigger] nodes[q].0 == n
}

proof fn lemma_occurs_push(a: Seq<(Seq<char>, Chain)>, x: (Seq<char>, Chain), n: Seq<char>)
    ensures
        occurs_name(a.push(x), n) <==> (occurs_name(a, n) || x.0 == n),
{
    let b = a.push(x);
    if occurs_name(b, n) {
        let q = choose|q: int| 0 <= q < b.len() && #[trigger] b[q].0 == n;
        if q < a.len() {
            assert(a[q].0 == n);
        }
    }
    if occurs_name(a, n) {
        let q = choose|q: int| 0 <= q < a.len() && #[trigger] a[q].0 == n;
        assert(b[q].0 == n);
    }
    if x.0 == n {
        assert(b[a.len() as int].0 == n);
    }
}

fn find_profile(ps: &Vec<ProfileInfo>, name: &str) -> (k: usize)
    ensures
        k == profile_index(ps@, name@, 0),
{
    let mut i: usize = 0;
    while i < ps.len() && !str_eq(ps[i].name.as_str(), name)
        invariant
            0 <= i <= ps.len(),
            profile_index(ps@, name@, 0) == profile_index(ps@, name@, i as int),
        decreases ps.len() - i,
    {
        i += 1;
    }
    i
}

/// One monitoring pass's plan: for every fully broken chain, in order, the
/// circuit-open nodes not yet planned that have a profile with a usable
/// probe URL, each with its chain and probe request.
pub fn probe_plan(config: &PiSwitchConfig, circuit: &CircuitStateStore, probe_path: &str) -> (r: Vec<
    ProbeTask,
>)
    ensures
        r.deep_view() == probe_plan_spec(*config, *circuit, probe_path@),
{
    let broken = broken_chains(config, circuit);
    let ghost cs = broken.deep_view();
    let mut probed: Vec<String> = Vec::new();
    let mut tasks: Vec<ProbeTask> = Vec::new();
    let mut i: usize = 0;
    assert(nodes_of(cs.take(0)) =~= Seq::<(Seq<char>, Chain)>::empty());
    while i < broken.len()
        invariant
            cs == broken.deep_view(),
            0 <= i <= broken.len(),
            tasks.deep_view() == plan_of(nodes_of(cs.take(i as int)), *config, *circuit, probe_path@),
            forall|n: Seq<char>|
                #[trigger] probed.deep_view().contains(n) <==> (occurs_name(
                    nodes_of(cs.take(i as int)),
                    n,
                ) && node_broken(*circuit, n)),
        decreases broken.len() - i,
    {
        let chain = &broken[i];
        let ghost c = cs[i as int];
        let ghost before = nodes_of(cs.take(i as int));
        assert(cs.take(i + 1).drop_last() =~= cs.take(i as int));
        assert(before + tagged(c, 0) =~= before);
        let mut j: usize = 0;
        while j < chain.len()
            invariant
                cs == broken.deep_view(),
                0 <= i < broken.len(),
                chain == broken@[i as int],
                c == cs[i as int],
                c == chain.deep_view(),
                before == nodes_of(cs.take(i as int)),
                0 <= j <= chain.len(),
                tasks.deep_view() == plan_of(before + tagged(c, j as int), *config, *circuit, probe_path@),
                forall|n: Seq<char>|
                    #[trigger] probed.deep_view().contains(n) <==> (occurs_name(
                        before + tagged(c, j as int),
                        n,
                    ) && node_broken(*circuit, n)),
            decreases chain.len() - j,
        {
            let ghost prevn = before + tagged(c, j as int);
            let ghost nextn = before + tagged(c, j + 1);
            assert(nextn =~= prevn.push((c[j as int], c)));
            let name = &chain[j];
            proof {
                assert forall|n: Seq<char>| occurs_name(nextn, n) <==> (occurs_name(prevn, n) || n == name@) by {
                    lemma_occurs_push(prevn, (c[j as int], c), n);
                }
            }
            let broken_now = is_node_broken(name.as_str(), circuit);
            let seen = contains_string(&probed, name.as_str());
            proof {
                assert(nextn.drop_last() =~= prevn);
                assert(nextn.last() == (name@, c));
                if broken_now {
                    assert(seen == occurs_name(prevn, name@));
                }
            }
            if broken_now && !seen {
                let ghost old_probed = probed.deep_view();
                probed.push(name.clone());
                assert(probed.deep_view() =~= old_probed.push(name@));
                assert forall|n: Seq<char>|
                    #[trigger] probed.deep_view().contains(n) <==> (occurs_name(nextn, n) && node_broken(*circuit, n))
                    by {
                    if n != name@ {
                        if probed.deep_view().contains(n) {
                            let q = choose|q: int| 0 <= q < probed.deep_view().len() && probed.deep_view()[q] == n;
                            if q < old_probed.len() {
                                assert(old_probed[q] == n);
                            }
                        }
                        if old_probed.contains(n) {
                            let q = choose|q: int| 0 <= q < old_probed.len() && old_probed[q] == n;
                            assert(probed.deep_view()[q] == n);
                        }
                    } else {
                        assert(probed.deep_view()[old_probed.len() as int] == n);
                    }
                }
                let k = find_profile(&config.profiles, name.as_str());
                if k < config.profiles.len() {
                    let req = build_probe(&config.profiles[k], probe_path);
                    if !req.url.as_str().is_empty() {
                        let ghost old_tasks = tasks.deep_view();
                        tasks.push(ProbeTask { name: name.clone(), chain: chain.clone(), request: req });
                        assert(tasks.deep_view() =~= old_tasks.push(
                            (name@, c, probe_url(config.profiles@[k as int].base_url@, probe_path@), probe_headers(config.profiles@[k as int])),
                        ));
                    }
                }
            } else {
                assert forall|n: Seq<char>|
                    #[trigger] probed.deep_view().contains(n) <==> (occurs_name(nextn, n) && node_broken(*circuit, n))
                    by {
                    if n == name@ && broken_now {
                        assert(probed.deep_view().contains(n));
                    }
                }
            }
            j += 1;
        }
        assert(c.take(chain.len() as int) =~= c);
        assert(nodes_of(cs.take(i + 1)) =~= before + tagged(c, chain.len() as int));
        i += 1;
    }
    assert(cs.take(broken.len() as int) =~= cs);
    tasks
}

// ─── Recovery log ──────────────────────────────────────────

/// The recovery log's file name under the configuration directory.
pub const RECOVERY_LOG_FILE: &'static str = "recovery.jsonl";

/// Past this size (bytes) the recovery log is cut down to its tail.
pub const RECOVERY_LOG_MAX_BYTES: u64 = 1_000_000;

/// How many lines a cut-down recovery log keeps.
pub const RECOVERY_LOG_KEEP_LINES: usize = 200;

/// Where recovery events are appended: `recovery.jsonl` under the
/// configuration directory `config_dir`.
pub fn recovery_log_path(config_dir: &str) -> (r: String)
    ensures
        r@ == join_path(config_dir@, RECOVERY_LOG_FILE@),
{
    path_join(config_dir, RECOVERY_LOG_FILE)
}

/// After an append, when the log has grown past
/// [`RECOVERY_LOG_MAX_BYTES`] (`size` bytes, lines `lines`), the lines it is
/// rewritten with: its last [`RECOVERY_LOG_KEEP_LINES`]; `None` when it is
/// left alone.
pub fn recovery_log_trim(size: u64, lines: Vec<String>) -> (r: Option<Vec<String>>)
    ensures
        (size > RECOVERY_LOG_MAX_BYTES) == (r is Some),
        r matches Some(kept) ==> kept@ == (if lines@.len() <= RECOVERY_LOG_KEEP_LINES {
            lines@
        } else {
            lines@.skip(lines@.len() - RECOVERY_LOG_KEEP_LINES)
        }),
{
    if size > RECOVERY_LOG_MAX_BYTES {
        Some(crate::rawlog::keep_latest(lines, RECOVERY_LOG_KEEP_LINES))
    } else {
        None
    }
}

/// Seconds between monitoring passes: the configured interval (at least 1),
/// or 15 when the configuration cannot be read.
pub fn monitor_interval_seconds(config: Option<&PiSwitchConfig>) -> (s: u64)
    ensures
        s == match config {
            Some(c) => if c.settings.proxy.monitor.probe_interval_seconds < 1 {
                1
            } else {
                c.settings.proxy.monitor.probe_interval_seconds
            },
            None => crate::config::DEFAULT_PROBE_INTERVAL_SECONDS,
        },
{
    match config {
        Some(c) => {
            let v = c.settings.proxy.monitor.probe_interval_seconds;
            if v < 1 {
                1
            } else {
                v
            }
        },
        None => crate::config::DEFAULT_PROBE_INTERVAL_SECONDS,
    }
}

/// Whether a monitoring pass runs: the monitor is enabled and so is the
/// circuit breaker (circuits cannot open while it is off).
pub fn monitor_active(config: &PiSwitchConfig) -> (r: bool)
    ensures
        r == (config.settings.proxy.monitor.enabled && config.settings.proxy.circuit_breaker_enabled),
{
    config.settings.proxy.monitor.enabled && config.settings.proxy.circuit_breaker_enabled
}

} // verus!
