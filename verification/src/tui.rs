//! Data shaping for the terminal UI: the stats range picker, the profile
//! table rows, and the snapshot the UI renders.

use vstd::prelude::*;
use crate::config::{FailoverRule, PiSwitchConfig, ProfileInfo};
use crate::daemon::DaemonResult;
use crate::text::str_eq;

verus! {

/// Time range for the stats page: `Today` is the local calendar day so far,
/// `Last24h`/`Last7d` are rolling windows ending now, `All` is full history.
#[derive(Debug, Clone, Copy, PartialEq, Eq, Structural)]
pub enum StatsRange {
    All,
    Today,
    Last24h,
    Last7d,
}

/// Position of a range in the picker order All, Today, Last24h, Last7d.
pub open spec fn range_index(r: StatsRange) -> int {
    match r {
        StatsRange::All => 0,
        StatsRange::Today => 1,
        StatsRange::Last24h => 2,
        StatsRange::Last7d => 3,
    }
}

/// The range at position `i` of the picker order.
pub open spec fn range_at(i: int) -> StatsRange {
    if i == 0 {
        StatsRange::All
    } else if i == 1 {
        StatsRange::Today
    } else if i == 2 {
        StatsRange::Last24h
    } else {
        StatsRange::Last7d
    }
}

/// The range after `r` in the picker, wrapping around after the last.
pub open spec fn next_range(r: StatsRange) -> StatsRange {
    range_at((range_index(r) + 1) % 4)
}

/// The range before `r` in the picker, wrapping around before the first.
pub open spec fn prev_range(r: StatsRange) -> StatsRange {
    range_at((range_index(r) + 3) % 4)
}

/// Stepping back undoes stepping forward and the other way round, and four
/// steps forward come back to the start.
pub proof fn lemma_range_cycle(r: StatsRange)
    ensures
        prev_range(next_range(r)) == r,
        next_range(prev_range(r)) == r,
        next_range(next_range(next_range(next_range(r)))) == r,
{
}

/// One hour in milliseconds.
pub const HOUR_MS: u64 = 3600 * 1000;

impl StatsRange {
    /// The following range, wrapping around after the last.
    pub fn next(self) -> (r: StatsRange)
        ensures
            r == next_range(self),
    {
        match self {
            StatsRange::All => StatsRange::Today,
            StatsRange::Today => StatsRange::Last24h,
            StatsRange::Last24h => StatsRange::Last7d,
            StatsRange::Last7d => StatsRange::All,
        }
    }

    /// The preceding range, wrapping around before the first.
    pub fn prev(self) -> (r: StatsRange)
        ensures
            r == prev_range(self),
    {
        match self {
            StatsRange::All => StatsRange::Last7d,
            StatsRange::Today => StatsRange::All,
            StatsRange::Last24h => StatsRange::Today,
            StatsRange::Last7d => StatsRange::Last24h,
        }
    }

    /// The `(from_ms, to_ms)` window at time `now_ms`, `None` for full
    /// history. `today_start_ms` is the start of the local calendar day
    /// (`None` when the local midnight cannot be resolved, which makes the
    /// day's window start now). Rolling windows start no earlier than 0.
    pub fn window_ms(self, now_ms: u64, today_start_ms: Option<u64>) -> (r: Option<(u64, u64)>)
        ensures
            r == match self {
                StatsRange::All => None,
                StatsRange::Today => Some(
                    (
                        match today_start_ms {
                            Some(t) => t,
                            None => now_ms,
                        },
                        now_ms,
                    ),
                ),
                StatsRange::Last24h => Some(
                    (if now_ms >= 24 * HOUR_MS {
                        (now_ms - 24 * HOUR_MS) as u64
                    } else {
                        0
                    }, now_ms),
                ),
                StatsRange::Last7d => Some(
                    (if now_ms >= 7 * 24 * HOUR_MS {
                        (now_ms - 7 * 24 * HOUR_MS) as u64
                    } else {
                        0
                    }, now_ms),
                ),
            },
    {
        match self {
            StatsRange::All => None,
            StatsRange::Today => {
                let start = match today_start_ms {
                    Some(t) => t,
                    None => now_ms,
                };
                Some((start, now_ms))
            },
            StatsRange::Last24h => Some((now_ms.saturating_sub(24 * HOUR_MS), now_ms)),
            StatsRange::Last7d => Some((now_ms.saturating_sub(7 * 24 * HOUR_MS), now_ms)),
        }
    }
}

// ─── Profile rows ──────────────────────────────────────────

/// Circuit-breaker status of one upstream as the stats report it.
#[derive(Debug, Clone)]
pub struct CircuitBreakerStatus {
    pub name: String,
    /// `closed`, `open` or `half_open`.
    pub state: String,
    pub last_error: Option<String>,
}

/// One row of the profile table.
#[derive(Debug, Clone)]
pub struct ProfileRow {
    pub name: String,
    pub api: String,
    pub base_url: String,
    pub models: Vec<String>,
    pub provider_id: String,
    pub proxy: bool,
    pub exposed_count: usize,
    pub in_rules: bool,
    /// First position of the profile across all rule chains.
    pub failover_priority: Option<usize>,
    pub circuit_breaker_open: bool,
    /// Last circuit-breaker error, for status display.
    pub circuit_breaker_error: Option<String>,
}

pub struct ProfileRowView {
    pub name: Seq<char>,
    pub api: Seq<char>,
    pub base_url: Seq<char>,
    pub models: Seq<Seq<char>>,
    pub provider_id: Seq<char>,
    pub proxy: bool,
    pub exposed_count: usize,
    pub in_rules: bool,
    pub failover_priority: Option<usize>,
    pub circuit_breaker_open: bool,
    pub circuit_breaker_error: Option<Seq<char>>,
}

impl DeepView for ProfileRow {
    type V = ProfileRowView;

    open spec fn deep_view(&self) -> ProfileRowView {
        ProfileRowView {
            name: self.name@,
            api: self.api@,
            base_url: self.base_url@,
            models: self.models.deep_view(),
            provider_id: self.provider_id@,
            proxy: self.proxy,
            exposed_count: self.exposed_count,
            in_rules: self.in_rules,
            failover_priority: self.failover_priority,
            circuit_breaker_open: self.circuit_breaker_open,
            circuit_breaker_error: self.circuit_breaker_error.deep_view(),
        }
    }
}

/// The distinct provider names of the rules, in order of first appearance.
pub open spec fn rule_order(rules: Seq<FailoverRule>) -> Seq<Seq<char>>
    decreases rules.len(),
{
    if rules.len() == 0 {
        Seq::empty()
    } else {
        add_distinct(rule_order(rules.drop_last()), rules.last().providers.deep_view())
    }
}

/// `acc` extended with the names of `ns` it does not hold yet, in order.
pub open spec fn add_distinct(acc: Seq<Seq<char>>, ns: Seq<Seq<char>>) -> Seq<Seq<char>>
    decreases ns.len(),
{
    if ns.len() == 0 {
        acc
    } else {
        let a = add_distinct(acc, ns.drop_last());
        if a.contains(ns.last()) {
            a
        } else {
            a.push(ns.last())
        }
    }
}

/// Index of the first `name` in `ns` at or after `i`, or the length.
pub open spec fn name_index(ns: Seq<Seq<char>>, name: Seq<char>, i: int) -> int
    decreases ns.len() - i,
{
    if i < 0 || i >= ns.len() {
        ns.len() as int
    } else if ns[i] == name {
        i
    } else {
        name_index(ns, name, i + 1)
    }
}

/// Index of `name` in `order`, when it is there.
pub open spec fn position_in(order: Seq<Seq<char>>, name: Seq<char>) -> Option<usize> {
    let k = name_index(order, name, 0);
    if k < order.len() {
        Some(k as usize)
    } else {
        None
    }
}

/// Index of the first status for `name` at or after `i`, or the length.
pub open spec fn status_index(ss: Seq<CircuitBreakerStatus>, name: Seq<char>, i: int) -> int
    decreases ss.len() - i,
{
    if i < 0 || i >= ss.len() {
        ss.len() as int
    } else if ss[i].name@ == name {
        i
    } else {
        status_index(ss, name, i + 1)
    }
}

/// The row for profile `p`.
pub open spec fn row_spec(p: ProfileInfo, order: Seq<Seq<char>>, ss: Seq<CircuitBreakerStatus>) -> ProfileRowView {
    let k = status_index(ss, p.name@, 0);
    let found = k < ss.len();
    ProfileRowView {
        name: p.name@,
        api: p.api@,
        base_url: p.base_url@,
        models: p.model_ids.deep_view(),
        provider_id: p.provider_id@,
        proxy: p.proxy,
        exposed_count: p.exposed_count,
        in_rules: position_in(order, p.name@) is Some,
        failover_priority: position_in(order, p.name@),
        circuit_breaker_open: found && (ss[k].state@ == "open"@ || ss[k].state@ == "half_open"@),
        circuit_breaker_error: if found {
            ss[k].last_error.deep_view()
        } else {
            None
        },
    }
}

proof fn lemma_name_index(ns: Seq<Seq<char>>, name: Seq<char>, i: int)
    requires
        0 <= i,
    ensures
        0 <= name_index(ns, name, i) <= ns.len(),
        name_index(ns, name, i) < ns.len() ==> ns[name_index(ns, name, i)] == name,
    decreases ns.len() - i,
{
    if i < ns.len() && ns[i] != name {
        lemma_name_index(ns, name, i + 1);
    }
}

/// No two profile rows of a well-formed configuration share a failover
/// priority: a priority is the position of the profile's own name in the
/// rules' provider order (a list that fits in memory, so its positions fit a
/// `usize`).
pub proof fn lemma_priorities_distinct(config: PiSwitchConfig, statuses: Seq<CircuitBreakerStatus>)
    requires
        crate::config::config_wf(config),
        rule_order(config.settings.proxy.rules@).len() <= usize::MAX,
    ensures
        forall|i: int, j: int|
            0 <= i < j < config.profiles@.len() && (#[trigger] row_spec(
                config.profiles@[i],
                rule_order(config.settings.proxy.rules@),
                statuses,
            )).failover_priority is Some ==> row_spec(
                config.profiles@[i],
                rule_order(config.settings.proxy.rules@),
                statuses,
            ).failover_priority != (#[trigger] row_spec(
                config.profiles@[j],
                rule_order(config.settings.proxy.rules@),
                statuses,
            )).failover_priority,
{
    let order = rule_order(config.settings.proxy.rules@);
    assert forall|i: int, j: int|
        0 <= i < j < config.profiles@.len() && (#[trigger] row_spec(
            config.profiles@[i],
            order,
            statuses,
        )).failover_priority is Some implies row_spec(config.profiles@[i], order, statuses).failover_priority
        != (#[trigger] row_spec(config.profiles@[j], order, statuses)).failover_priority by {
        let a = config.profiles@[i].name@;
        let b = config.profiles@[j].name@;
        assert(a != b);
        lemma_name_index(order, a, 0);
        lemma_name_index(order, b, 0);
        let ka = name_index(order, a, 0);
        let kb = name_index(order, b, 0);
        assert(ka < order.len());
        if kb < order.len() {
            assert(ka != kb);
            assert(ka as usize != kb as usize);
        }
    }
}

fn name_position(v: &Vec<String>, s: &str) -> (r: Option<usize>)
    ensures
        r == position_in(v.deep_view(), s@),
{
    let mut i: usize = 0;
    while i < v.len() && !str_eq(v[i].as_str(), s)
        invariant
            0 <= i <= v.len(),
            name_index(v.deep_view(), s@, 0) == name_index(v.deep_view(), s@, i as int),
        decreases v.len() - i,
    {
        i += 1;
    }
    if i < v.len() {
        Some(i)
    } else {
        None
    }
}

fn contains_name(v: &Vec<String>, s: &str) -> (r: bool)
    ensures
        r == v.deep_view().contains(s@),
{
    let mut i: usize = 0;
    while i < v.len()
        invariant
            0 <= i <= v.len(),
            forall|j: int| 0 <= j < i ==> v.deep_view()[j] != s@,
        decreases v.len() - i,
    {
        if str_eq(v[i].as_str(), s) {
            assert(v.deep_view()[i as int] == s@);
            return true;
        }
        i += 1;
    }
    false
}

fn rule_order_of(rules: &Vec<FailoverRule>) -> (r: Vec<String>)
    ensures
        r.deep_view() == rule_order(rules@),
{
    let mut order: Vec<String> = Vec::new();
    let mut i: usize = 0;
    while i < rules.len()
        invariant
            0 <= i <= rules.len(),
            order.deep_view() == rule_order(rules@.take(i as int)),
        decreases rules.len() - i,
    {
        assert(rules@.take(i + 1).drop_last() =~= rules@.take(i as int));
        let ps = &rules[i].providers;
        let ghost start = order.deep_view();
        let mut j: usize = 0;
        while j < ps.len()
            invariant
                0 <= i < rules.len(),
                ps == rules@[i as int].providers,
                0 <= j <= ps.len(),
                start == rule_order(rules@.take(i as int)),
                order.deep_view() == add_distinct(start, ps.deep_view().take(j as int)),
            decreases ps.len() - j,
        {
            assert(ps.deep_view().take(j + 1).drop_last() =~= ps.deep_view().take(j as int));
            let ghost prev = order.deep_view();
            if !contains_name(&order, ps[j].as_str()) {
                order.push(ps[j].clone());
                assert(order.deep_view() =~= prev.push(ps.deep_view()[j as int]));
            }
            j += 1;
        }
        assert(ps.deep_view().take(ps.len() as int) =~= ps.deep_view());
        i += 1;
    }
    assert(rules@.take(rules.len() as int) =~= rules@);
    order
}

fn find_status(ss: &Vec<CircuitBreakerStatus>, name: &str) -> (k: usize)
    ensures
        k == status_index(ss@, name@, 0),
{
    let mut i: usize = 0;
    while i < ss.len() && !str_eq(ss[i].name.as_str(), name)
        invariant
            0 <= i <= ss.len(),
            status_index(ss@, name@, 0) == status_index(ss@, name@, i as int),
        decreases ss.len() - i,
    {
        i += 1;
    }
    i
}

fn clone_strings(v: &Vec<String>) -> (r: Vec<String>)
    ensures
        r.deep_view() == v.deep_view(),
{
    let mut r: Vec<String> = Vec::new();
    let mut i: usize = 0;
    while i < v.len()
        invariant
            0 <= i <= v.len(),
            r.deep_view() == v.deep_view().take(i as int),
        decreases v.len() - i,
    {
        let ghost prev = r.deep_view();
        r.push(v[i].clone());
        assert(r.deep_view() =~= prev.push(v@[i as int]@));
        assert(r.deep_view() =~= v.deep_view().take(i + 1));
        i += 1;
    }
    assert(v.deep_view().take(v.len() as int) =~= v.deep_view());
    r
}

/// The profile table: one row per profile, in configuration order, with its
/// failover priority (first position across the rule chains), and its
/// circuit-breaker state (open when `open` or `half_open`) and last error.
pub fn profile_rows(config: &PiSwitchConfig, statuses: &Vec<CircuitBreakerStatus>) -> (rows: Vec<
    ProfileRow,
>)
    ensures
        rows@.len() == config.profiles@.len(),
        forall|i: int|
            0 <= i < rows@.len() ==> (#[trigger] rows@[i]).deep_view() == row_spec(
                config.profiles@[i],
                rule_order(config.settings.proxy.rules@),
                statuses@,
            ),
{
    let order = rule_order_of(&config.settings.proxy.rules);
    let ghost ov = order.deep_view();
    let ps = &config.profiles;
    let mut rows: Vec<ProfileRow> = Vec::new();
    let mut i: usize = 0;
    while i < ps.len()
        invariant
            ps == config.profiles,
            ov == order.deep_view(),
            ov == rule_order(config.settings.proxy.rules@),
            0 <= i <= ps.len(),
            rows@.len() == i,
            forall|j: int|
                0 <= j < i ==> (#[trigger] rows@[j]).deep_view() == row_spec(ps@[j], ov, statuses@),
        decreases ps.len() - i,
    {
        let p = &ps[i];
        let priority = name_position(&order, p.name.as_str());
        let k = find_status(statuses, p.name.as_str());
        let (open, error) = if k < statuses.len() {
            let st = &statuses[k];
            let open = str_eq(st.state.as_str(), "open") || str_eq(st.state.as_str(), "half_open");
            let error = match &st.last_error {
                Some(e) => Some(e.clone()),
                None => None,
            };
            (open, error)
        } else {
            (false, None)
        };
        let row = ProfileRow {
            name: p.name.clone(),
            api: p.api.clone(),
            base_url: p.base_url.clone(),
            models: clone_strings(&p.model_ids),
            provider_id: p.provider_id.clone(),
            proxy: p.proxy,
            exposed_count: p.exposed_count,
            in_rules: priority.is_some(),
            failover_priority: priority,
            circuit_breaker_open: open,
            circuit_breaker_error: error,
        };
        assert(row.deep_view() == row_spec(ps@[i as int], ov, statuses@));
        rows.push(row);
        i += 1;
    }
    rows
}


// ─── Backups ───────────────────────────────────────────────

/// Whether `a` sorts before `b`: character by character (by code point,
/// which is the byte order of their UTF-8), a proper prefix first.
pub open spec fn lex_lt(a: Seq<char>, b: Seq<char>) -> bool
    decreases a.len(),
{
    if b.len() == 0 {
        false
    } else if a.len() == 0 {
        true
    } else if a[0] < b[0] {
        true
    } else if a[0] == b[0] {
        lex_lt(a.drop_first(), b.drop_first())
    } else {
        false
    }
}

proof fn lemma_lex_lt_transitive(a: Seq<char>, b: Seq<char>, c: Seq<char>)
    requires
        lex_lt(a, b),
        lex_lt(b, c),
    ensures
        lex_lt(a, c),
    decreases a.len(),
{
    if a.len() > 0 && b.len() > 0 && c.len() > 0 && a[0] == b[0] && b[0] == c[0] {
        lemma_lex_lt_transitive(a.drop_first(), b.drop_first(), c.drop_first());
    }
}

proof fn lemma_lex_lt_irreflexive(a: Seq<char>)
    ensures
        !lex_lt(a, a),
    decreases a.len(),
{
    if a.len() > 0 {
        lemma_lex_lt_irreflexive(a.drop_first());
    }
}

/// Whether names are in descending order.
pub open spec fn sorted_desc(s: Seq<Seq<char>>) -> bool {
    forall|i: int, j: int| 0 <= i < j < s.len() ==> !lex_lt(#[trigger] s[i], #[trigger] s[j])
}

fn str_lt(a: &str, b: &str) -> (r: bool)
    ensures
        r == lex_lt(a@, b@),
{
    let av = crate::text::chars_of(a);
    let bv = crate::text::chars_of(b);
    let mut i: usize = 0;
    assert(a@.skip(0) =~= a@);
    assert(b@.skip(0) =~= b@);
    while i < av.len() && i < bv.len() && av[i] == bv[i]
        invariant
            av@ == a@,
            bv@ == b@,
            0 <= i <= av.len(),
            i <= bv.len(),
            lex_lt(a@, b@) == lex_lt(a@.skip(i as int), b@.skip(i as int)),
        decreases av.len() - i,
    {
        assert(a@.skip(i as int).drop_first() =~= a@.skip(i + 1));
        assert(b@.skip(i as int).drop_first() =~= b@.skip(i + 1));
        i += 1;
    }
    if i == bv.len() {
        false
    } else if i == av.len() {
        true
    } else {
        assert(a@.skip(i as int)[0] == av@[i as int]);
        assert(b@.skip(i as int)[0] == bv@[i as int]);
        av[i] < bv[i]
    }
}

/// The backup file names newest first: in descending name order (the
/// names start with their timestamp).
pub fn backups_newest_first(names: Vec<String>) -> (r: Vec<String>)
    ensures
        sorted_desc(r.deep_view()),
        r.deep_view().to_multiset() == names.deep_view().to_multiset(),
{
    let ghost nv = names.deep_view();
    let mut r: Vec<String> = Vec::new();
    let mut i: usize = 0;
    assert(nv.take(0) =~= Seq::<Seq<char>>::empty());
    assert(r.deep_view() =~= Seq::<Seq<char>>::empty());
    while i < names.len()
        invariant
            nv == names.deep_view(),
            0 <= i <= names.len(),
            sorted_desc(r.deep_view()),
            r.deep_view().to_multiset() == nv.take(i as int).to_multiset(),
        decreases names.len() - i,
    {
        let x = names[i].clone();
        let ghost rv = r.deep_view();
        let mut p: usize = 0;
        while p < r.len() && !str_lt(r[p].as_str(), x.as_str())
            invariant
                rv == r.deep_view(),
                0 <= p <= r.len(),
                forall|k: int| 0 <= k < p ==> !lex_lt(#[trigger] rv[k], x@),
            decreases r.len() - p,
        {
            p += 1;
        }
        proof {
            if p < rv.len() {
                assert(r@[p as int]@ == rv[p as int]);
                assert(lex_lt(rv[p as int], x@));
            }
        }
        let ghost xv = x@;
        r.insert(p, x);
        proof {
            let nr = r.deep_view();
            assert(nr =~= rv.insert(p as int, xv));
            vstd::seq_lib::to_multiset_insert(rv, p as int, xv);
            vstd::seq_lib::to_multiset_build(nv.take(i as int), xv);
            lemma_lex_lt_irreflexive(xv);
            assert forall|a: int, b: int| 0 <= a < b < nr.len() implies !lex_lt(
                #[trigger] nr[a],
                #[trigger] nr[b],
            ) by {
                if a < p && b < p + 1 {
                    if b == p {
                        assert(nr[a] == rv[a]);
                    } else {
                        assert(nr[a] == rv[a] && nr[b] == rv[b]);
                    }
                } else if a < p {
                    assert(nr[a] == rv[a] && nr[b] == rv[b - 1]);
                } else if a == p {
                    assert(nr[b] == rv[b - 1]);
                    assert(lex_lt(rv[p as int], xv));
                    if lex_lt(xv, rv[b - 1]) {
                        lemma_lex_lt_transitive(rv[p as int], xv, rv[b - 1]);
                        if p as int != b - 1 {
                            assert(!lex_lt(rv[p as int], rv[b - 1]));
                        } else {
                            lemma_lex_lt_irreflexive(rv[p as int]);
                        }
                    }
                } else {
                    assert(nr[a] == rv[a - 1] && nr[b] == rv[b - 1]);
                }
            }
            assert(nv.take(i + 1) =~= nv.take(i as int).push(xv));
        }
        i += 1;
    }
    assert(nv.take(names.len() as int) =~= nv);
    r
}

// ─── Snapshot ──────────────────────────────────────────────

/// What the terminal UI renders.
pub struct UiData {
    pub config: PiSwitchConfig,
    pub profiles: Vec<ProfileRow>,
    pub daemon: DaemonResult,
    /// Circuit-breaker status per upstream, from the stats.
    pub circuit_breaker: Vec<CircuitBreakerStatus>,
    /// Backup file names, newest first.
    pub backups: Vec<String>,
    /// Pi's currently selected model.
    pub pi_default_model: Option<String>,
    /// Active stats time range (kept across refreshes).
    pub stats_range: StatsRange,
}

/// What a load reads: the configuration (`None` when it cannot be read), the
/// stats' circuit-breaker statuses for the range, the proxy's status (or the
/// message of the error that prevented it), the backup file names (newest
/// first) and pi's selected model.
pub struct UiSources {
    pub config: Option<PiSwitchConfig>,
    pub circuit_breaker: Vec<CircuitBreakerStatus>,
    pub daemon: Result<DaemonResult, String>,
    pub backups: Vec<String>,
    pub pi_default_model: Option<String>,
}

/// Whether `d` is the snapshot loaded from `src` for `range`.
pub open spec fn loaded_from(d: UiData, range: StatsRange, src: UiSources) -> bool {
    &&& d.stats_range == range
    &&& d.circuit_breaker == src.circuit_breaker
    &&& d.backups == src.backups
    &&& d.pi_default_model == src.pi_default_model
    &&& match src.config {
        Some(c) => d.config == c,
        None => crate::config::is_default_config(d.config),
    }
    &&& d.profiles@.len() == d.config.profiles@.len()
    &&& forall|i: int|
        0 <= i < d.profiles@.len() ==> (#[trigger] d.profiles@[i]).deep_view() == row_spec(
            d.config.profiles@[i],
            rule_order(d.config.settings.proxy.rules@),
            d.circuit_breaker@,
        )
    &&& match src.daemon {
        Ok(r) => d.daemon == r,
        Err(m) => crate::daemon::bare_offline(d.daemon) && d.daemon.message@ == m@,
    }
}

impl UiData {
    /// Load the snapshot for full history.
    pub fn load(src: UiSources) -> (d: UiData)
        ensures
            loaded_from(d, StatsRange::All, src),
    {
        Self::load_with_range(StatsRange::All, src)
    }

    /// Load the snapshot for `range`: the configuration (defaults when it
    /// cannot be read), its profile rows, the proxy status (offline with the
    /// error message when it failed), backups and pi's model.
    pub fn load_with_range(range: StatsRange, src: UiSources) -> (d: UiData)
        ensures
            loaded_from(d, range, src),
    {
        let ghost s0 = src;
        let UiSources { config, circuit_breaker, daemon, backups, pi_default_model } = src;
        let config = match config {
            Some(c) => c,
            None => PiSwitchConfig::default(),
        };
        let profiles = profile_rows(&config, &circuit_breaker);
        let daemon = match daemon {
            Ok(r) => r,
            Err(m) => crate::daemon::offline_daemon(m),
        };
        UiData {
            config,
            profiles,
            daemon,
            circuit_breaker,
            backups,
            pi_default_model,
            stats_range: range,
        }
    }

    /// Reload everything, keeping the active stats range.
    pub fn refresh(&mut self, src: UiSources)
        ensures
            loaded_from(*final(self), old(self).stats_range, src),
    {
        let range = self.stats_range;
        *self = Self::load_with_range(range, src);
    }

    /// Re-read just pi's current model.
    pub fn refresh_pi_model(&mut self, model: Option<String>)
        ensures
            final(self).pi_default_model == model,
            final(self).config == old(self).config,
            final(self).profiles == old(self).profiles,
            final(self).daemon == old(self).daemon,
            final(self).circuit_breaker == old(self).circuit_breaker,
            final(self).backups == old(self).backups,
            final(self).stats_range == old(self).stats_range,
    {
        self.pi_default_model = model;
    }
}

} // verus!
