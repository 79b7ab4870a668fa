//! Model-catalog enrichment: resolving a model id against the public model
//! database and filling still-unset parameters of a model entry from it.
//!
//! The catalog is held as plain values (see [`ModelCatalog`]); reading the
//! database file or fetching it from the network is the caller's business.

use vstd::prelude::*;
use crate::text::{chars_of, owned, str_eq, string_of_range};

verus! {

// ─── Catalog data ──────────────────────────────────────────

/// The `limit` object of a catalog model: `context` / `output` when they are
/// non-negative integers.
#[derive(Clone, Copy, Debug, PartialEq, Eq)]
pub struct CatalogLimit {
    pub context: Option<u64>,
    pub output: Option<u64>,
}

/// The `cost` object of a catalog model. Each price is the bit pattern of the
/// `f64` the database holds (`None` when the field is absent or not a number).
#[derive(Clone, Copy, Debug, PartialEq, Eq)]
pub struct CatalogCost {
    pub input: Option<u64>,
    pub output: Option<u64>,
    pub cache_read: Option<u64>,
    pub cache_write: Option<u64>,
}

/// One element of a model's `reasoning_options` array.
#[derive(Debug, Clone)]
pub struct ReasoningOption {
    /// The `type` field when it is a string.
    pub kind: Option<String>,
    /// The string elements of `values` when `values` is an array.
    pub values: Option<Vec<String>>,
}

/// One model of a provider in the catalog.
#[derive(Debug, Clone)]
pub struct CatalogModel {
    /// The key the model is stored under in its provider's `models` object.
    pub key: String,
    /// The `id` field when it is a string.
    pub id: Option<String>,
    /// The `name` field when it is a string.
    pub name: Option<String>,
    /// The `reasoning` field when it is a boolean.
    pub reasoning: Option<bool>,
    /// The `limit` field when present.
    pub limit: Option<CatalogLimit>,
    /// The string elements of `modalities.input` when that is an array.
    pub input_modalities: Option<Vec<String>>,
    /// The `cost` field when it is an object.
    pub cost: Option<CatalogCost>,
    /// The `reasoning_options` field when it is an array.
    pub reasoning_options: Option<Vec<ReasoningOption>>,
}

/// One provider of the catalog.
#[derive(Debug, Clone)]
pub struct CatalogProvider {
    pub name: String,
    /// The provider's models, in database order, when `models` is an object.
    pub models: Option<Vec<CatalogModel>>,
}

/// The model database: its providers in database order, or `None` when no
/// database is available (or it is not an object). The database is a JSON
/// object of objects, so a well-formed catalog holds no provider name twice
/// and no model key twice within a provider (see [`catalog_wf`]).
#[derive(Debug, Clone)]
pub struct ModelCatalog {
    pub providers: Option<Vec<CatalogProvider>>,
}

pub struct ReasoningOptionView {
    pub kind: Option<Seq<char>>,
    pub values: Option<Seq<Seq<char>>>,
}

pub struct CatalogModelView {
    pub key: Seq<char>,
    pub id: Option<Seq<char>>,
    pub name: Option<Seq<char>>,
    pub reasoning: Option<bool>,
    pub limit: Option<CatalogLimit>,
    pub input_modalities: Option<Seq<Seq<char>>>,
    pub cost: Option<CatalogCost>,
    pub reasoning_options: Option<Seq<ReasoningOptionView>>,
}

pub struct CatalogProviderView {
    pub name: Seq<char>,
    pub models: Option<Seq<CatalogModelView>>,
}

impl DeepView for ReasoningOption {
    type V = ReasoningOptionView;

    open spec fn deep_view(&self) -> ReasoningOptionView {
        ReasoningOptionView { kind: self.kind.deep_view(), values: self.values.deep_view() }
    }
}

impl DeepView for CatalogModel {
    type V = CatalogModelView;

    open spec fn deep_view(&self) -> CatalogModelView {
        CatalogModelView {
            key: self.key@,
            id: self.id.deep_view(),
            name: self.name.deep_view(),
            reasoning: self.reasoning,
            limit: self.limit,
            input_modalities: self.input_modalities.deep_view(),
            cost: self.cost,
            reasoning_options: self.reasoning_options.deep_view(),
        }
    }
}

impl DeepView for CatalogProvider {
    type V = CatalogProviderView;

    open spec fn deep_view(&self) -> CatalogProviderView {
        CatalogProviderView { name: self.name@, models: self.models.deep_view() }
    }
}

impl View for ModelCatalog {
    type V = Option<Seq<CatalogProviderView>>;

    open spec fn view(&self) -> Option<Seq<CatalogProviderView>> {
        self.providers.deep_view()
    }
}

// ─── Model entries ─────────────────────────────────────────

/// Prices of a model entry; each is the bit pattern of an `f64`.
#[derive(Clone, Copy, Debug, PartialEq, Eq)]
pub struct ModelCost {
    pub input: u64,
    pub output: u64,
    pub cache_read: u64,
    pub cache_write: u64,
}

/// A thinking-level map: level name to the upstream level it maps to, or
/// `None` for a level that is hidden.
#[derive(Debug, Clone)]
pub struct ThinkingLevelMap {
    pub levels: Vec<(String, Option<String>)>,
}

/// One model of a provider profile, as stored in the configuration.
#[derive(Debug, Clone)]
pub struct ModelEntry {
    pub id: String,
    pub name: Option<String>,
    pub reasoning: Option<bool>,
    pub context_window: u32,
    pub max_tokens: u32,
    pub input: Vec<String>,
    pub cost: Option<ModelCost>,
    pub thinking_level_map: Option<ThinkingLevelMap>,
}

pub type LevelsView = Seq<(Seq<char>, Option<Seq<char>>)>;

pub struct ModelEntryView {
    pub id: Seq<char>,
    pub name: Option<Seq<char>>,
    pub reasoning: Option<bool>,
    pub context_window: u32,
    pub max_tokens: u32,
    pub input: Seq<Seq<char>>,
    pub cost: Option<ModelCost>,
    pub thinking_level_map: Option<LevelsView>,
}

impl View for ThinkingLevelMap {
    type V = LevelsView;

    open spec fn view(&self) -> LevelsView {
        self.levels.deep_view()
    }
}

impl DeepView for ThinkingLevelMap {
    type V = LevelsView;

    open spec fn deep_view(&self) -> LevelsView {
        self.levels.deep_view()
    }
}

impl View for ModelEntry {
    type V = ModelEntryView;

    open spec fn view(&self) -> ModelEntryView {
        ModelEntryView {
            id: self.id@,
            name: self.name.deep_view(),
            reasoning: self.reasoning,
            context_window: self.context_window,
            max_tokens: self.max_tokens,
            input: self.input.deep_view(),
            cost: self.cost,
            thinking_level_map: self.thinking_level_map.deep_view(),
        }
    }
}

impl DeepView for ModelEntry {
    type V = ModelEntryView;

    open spec fn deep_view(&self) -> ModelEntryView {
        self@
    }
}

/// Where the model catalog is fetched from.
pub const MODELS_DEV_URL: &'static str = "https://models.dev/api.json";

/// How long a cached catalog stays fresh, in seconds (a week).
pub const CACHE_TTL_SECS: u64 = 7 * 24 * 60 * 60;

/// Network budget of a regular catalog load, in seconds.
pub const FETCH_TIMEOUT_SECS: u64 = 60;

/// Network budget of a forced refresh on an interactive write path, in
/// seconds: fail fast and fall back to the cache.
pub const FRESH_FETCH_TIMEOUT_SECS: u64 = 15;

/// The catalog cache's file name under the configuration directory.
pub const CACHE_FILE: &'static str = "models-cache.json";

/// Where the catalog is cached: [`CACHE_FILE`] under `config_dir`.
pub fn cache_path(config_dir: &str) -> (r: String)
    ensures
        r@ == crate::text::join_path(config_dir@, CACHE_FILE@),
{
    crate::text::path_join(config_dir, CACHE_FILE)
}

/// Whether the cache file is stale: its age (nanoseconds; `None` when it is
/// missing or its age cannot be read) is past [`CACHE_TTL_SECS`].
pub fn cache_is_stale(age_nanos: Option<u128>) -> (r: bool)
    ensures
        r == match age_nanos {
            Some(a) => a > CACHE_TTL_SECS * 1_000_000_000,
            None => true,
        },
{
    match age_nanos {
        Some(a) => a > (CACHE_TTL_SECS as u128) * 1_000_000_000,
        None => true,
    }
}

/// How a catalog load goes.
pub struct CatalogLoadPlan {
    /// Use the cache without fetching when it can be read.
    pub cache_first: bool,
    /// The fetch's time budget in seconds.
    pub timeout_secs: u64,
    /// When the fetch fails, fall back to the cache when it can be read
    /// (else the catalog is empty).
    pub fallback_to_cache: bool,
}

/// The plan of a load: a regular load (`force_fetch` false) reads a fresh
/// cache first and falls back to a stale one; a forced refresh always
/// fetches first, with the shorter budget, and falls back to any cache.
pub fn catalog_load_plan(force_fetch: bool, stale: bool) -> (r: CatalogLoadPlan)
    ensures
        r.cache_first == (!force_fetch && !stale),
        r.timeout_secs == if force_fetch {
            FRESH_FETCH_TIMEOUT_SECS
        } else {
            FETCH_TIMEOUT_SECS
        },
        r.fallback_to_cache == (force_fetch || stale),
{
    CatalogLoadPlan {
        cache_first: !force_fetch && !stale,
        timeout_secs: if force_fetch {
            FRESH_FETCH_TIMEOUT_SECS
        } else {
            FETCH_TIMEOUT_SECS
        },
        fallback_to_cache: force_fetch || stale,
    }
}

/// The default context window of a model entry.
pub const DEFAULT_CONTEXT_WINDOW: u32 = 128000;

/// The default output-token limit of a model entry.
pub const DEFAULT_MAX_TOKENS: u32 = 16384;

impl Default for ModelEntry {
    /// An entry with an empty id, text input only, the default window, and
    /// every optional field unset.
    fn default() -> (e: ModelEntry)
        ensures
            e@ == (ModelEntryView {
                id: Seq::empty(),
                name: None,
                reasoning: None,
                context_window: DEFAULT_CONTEXT_WINDOW,
                max_tokens: DEFAULT_MAX_TOKENS,
                input: seq!["text"@],
                cost: None,
                thinking_level_map: None,
            }),
    {
        let mut input: Vec<String> = Vec::new();
        input.push(owned("text"));
        let e = ModelEntry {
            id: String::new(),
            name: None,
            reasoning: None,
            context_window: DEFAULT_CONTEXT_WINDOW,
            max_tokens: DEFAULT_MAX_TOKENS,
            input,
            cost: None,
            thinking_level_map: None,
        };
        assert(e@.input =~= seq!["text"@]);
        e
    }
}


// ─── Lookup ────────────────────────────────────────────────

/// Index of the first `c` in `s` at or after `i`, or `s.len()`.
pub open spec fn find_char_from(s: Seq<char>, c: char, i: int) -> int
    decreases s.len() - i,
{
    if i < 0 || i >= s.len() {
        s.len() as int
    } else if s[i] == c {
        i
    } else {
        find_char_from(s, c, i + 1)
    }
}

/// Index of the first provider named `name` at or after `i`, or `ps.len()`.
pub open spec fn provider_index(ps: Seq<CatalogProviderView>, name: Seq<char>, i: int) -> int
    decreases ps.len() - i,
{
    if i < 0 || i >= ps.len() {
        ps.len() as int
    } else if ps[i].name == name {
        i
    } else {
        provider_index(ps, name, i + 1)
    }
}

/// Index of the first model stored under `key` at or after `i`, or `ms.len()`.
pub open spec fn model_key_index(ms: Seq<CatalogModelView>, key: Seq<char>, i: int) -> int
    decreases ms.len() - i,
{
    if i < 0 || i >= ms.len() {
        ms.len() as int
    } else if ms[i].key == key {
        i
    } else {
        model_key_index(ms, key, i + 1)
    }
}

/// Index of the first model whose `id` is `id` at or after `i`, or `ms.len()`.
pub open spec fn model_id_index(ms: Seq<CatalogModelView>, id: Seq<char>, i: int) -> int
    decreases ms.len() - i,
{
    if i < 0 || i >= ms.len() {
        ms.len() as int
    } else if ms[i].id == Some(id) {
        i
    } else {
        model_id_index(ms, id, i + 1)
    }
}

/// The models of a provider (none when its `models` is not an object).
pub open spec fn models_of(p: CatalogProviderView) -> Seq<CatalogModelView> {
    match p.models {
        Some(ms) => ms,
        None => Seq::empty(),
    }
}

/// Resolution of a namespaced id `provider/model`: within the provider named
/// before the first `/`, the model stored under the rest, else the first model
/// whose `id` is the rest.
pub open spec fn namespaced_lookup(ps: Seq<CatalogProviderView>, id: Seq<char>) -> Option<
    CatalogModelView,
> {
    let k = find_char_from(id, '/', 0);
    if k < id.len() {
        let prefix = id.take(k);
        let rest = id.skip(k + 1);
        let p = provider_index(ps, prefix, 0);
        if p < ps.len() && ps[p].models is Some {
            let ms = ps[p].models->0;
            let a = model_key_index(ms, rest, 0);
            let b = model_id_index(ms, rest, 0);
            if a < ms.len() {
                Some(ms[a])
            } else if b < ms.len() {
                Some(ms[b])
            } else {
                None
            }
        } else {
            None
        }
    } else {
        None
    }
}

/// Preference rank of a provider when a bare id exists under several
/// providers (lower wins; providers outside the canonical list rank last).
pub open spec fn provider_rank(name: Seq<char>) -> int {
    if name == "openai"@ {
        0
    } else if name == "anthropic"@ {
        1
    } else if name == "google"@ {
        2
    } else if name == "deepseek"@ {
        3
    } else if name == "mistral"@ {
        4
    } else if name == "meta"@ {
        5
    } else if name == "xai"@ {
        6
    } else if name == "alibaba"@ {
        7
    } else if name == "moonshotai"@ {
        8
    } else if name == "groq"@ {
        9
    } else if name == "openrouter"@ {
        10
    } else {
        11
    }
}

/// The canonical providers, most preferred first.
pub open spec fn preferred_providers() -> Seq<Seq<char>> {
    seq![
        "openai"@,
        "anthropic"@,
        "google"@,
        "deepseek"@,
        "mistral"@,
        "meta"@,
        "xai"@,
        "alibaba"@,
        "moonshotai"@,
        "groq"@,
        "openrouter"@,
    ]
}

/// A provider's rank is its position in the canonical list, and every
/// provider outside the list ranks after all of them, so a canonical
/// provider always beats one outside the list.
pub proof fn lemma_provider_rank_is_list_position(name: Seq<char>)
    ensures
        forall|i: int|
            0 <= i < preferred_providers().len() && #[trigger] preferred_providers()[i] == name
                ==> provider_rank(name) == i,
        !preferred_providers().contains(name) ==> provider_rank(name)
            == preferred_providers().len(),
        preferred_providers().contains(name) ==> provider_rank(name)
            < preferred_providers().len(),
{
    reveal_strlit("openai");
    reveal_strlit("anthropic");
    reveal_strlit("google");
    reveal_strlit("deepseek");
    reveal_strlit("mistral");
    reveal_strlit("meta");
    reveal_strlit("xai");
    reveal_strlit("alibaba");
    reveal_strlit("moonshotai");
    reveal_strlit("groq");
    reveal_strlit("openrouter");
    let l = preferred_providers();
    assert(l.len() == 11);
    assert forall|i: int| 0 <= i < l.len() && #[trigger] l[i] == name implies provider_rank(name)
        == i by {
        // Canonical names differ in length or in their first letter.
        assert(name.len() == l[i].len());
        assert(name[0] == l[i][0]);
    }
    if !l.contains(name) {
        assert forall|i: int| 0 <= i < 11 implies l[i] != name by {
            if l[i] == name {
                assert(l.contains(name));
            }
        }
        assert(l[0] != name);
        assert(l[1] != name);
        assert(l[2] != name);
        assert(l[3] != name);
        assert(l[4] != name);
        assert(l[5] != name);
        assert(l[6] != name);
        assert(l[7] != name);
        assert(l[8] != name);
        assert(l[9] != name);
        assert(l[10] != name);
    }
}

/// Whether a model answers to `id`, by its key or by its `id` field.
pub open spec fn answers_to(m: CatalogModelView, id: Seq<char>) -> bool {
    m.key == id || m.id == Some(id)
}

/// Whether model `m` of provider `p` answers to `id`.
pub open spec fn is_candidate(ps: Seq<CatalogProviderView>, id: Seq<char>, p: int, m: int) -> bool {
    &&& 0 <= p < ps.len()
    &&& 0 <= m < models_of(ps[p]).len()
    &&& answers_to(models_of(ps[p])[m], id)
}

/// Whether position `(p, m)` comes no later than `(p2, m2)` in database order.
pub open spec fn position_le(p: int, m: int, p2: int, m2: int) -> bool {
    p < p2 || (p == p2 && m <= m2)
}

/// Whether `(p, m)` is the winner for a bare id: a candidate whose provider has
/// the best rank, the first such in database order.
pub open spec fn is_bare_winner(ps: Seq<CatalogProviderView>, id: Seq<char>, p: int, m: int) -> bool {
    &&& is_candidate(ps, id, p, m)
    &&& forall|p2: int, m2: int|
        #[trigger] is_candidate(ps, id, p2, m2) ==> {
            ||| provider_rank(ps[p].name) < provider_rank(ps[p2].name)
            ||| (provider_rank(ps[p].name) == provider_rank(ps[p2].name) && position_le(
                p,
                m,
                p2,
                m2,
            ))
        }
}

/// Resolution of a bare id across all providers.
pub open spec fn bare_lookup(ps: Seq<CatalogProviderView>, id: Seq<char>) -> Option<
    CatalogModelView,
> {
    if exists|p: int, m: int| is_bare_winner(ps, id, p, m) {
        let (p, m) = choose|p: int, m: int| is_bare_winner(ps, id, p, m);
        Some(models_of(ps[p])[m])
    } else {
        None
    }
}

/// What `lookup` resolves `id` to in the catalog `cat`.
pub open spec fn lookup_spec(cat: Option<Seq<CatalogProviderView>>, id: Seq<char>) -> Option<
    CatalogModelView,
> {
    match cat {
        None => None,
        Some(ps) => match namespaced_lookup(ps, id) {
            Some(m) => Some(m),
            None => bare_lookup(ps, id),
        },
    }
}

/// A well-formed catalog (the database is a JSON object of objects): no
/// provider name twice, and no model key twice within a provider.
pub open spec fn catalog_wf(cat: Option<Seq<CatalogProviderView>>) -> bool {
    match cat {
        None => true,
        Some(ps) => {
            &&& forall|i: int, j: int| 0 <= i < j < ps.len() ==> (#[trigger] ps[i]).name != (#[trigger] ps[j]).name
            &&& forall|p: int, i: int, j: int|
                0 <= p < ps.len() && 0 <= i < j < models_of(ps[p]).len() ==> (#[trigger] models_of(ps[p])[i]).key
                    != (#[trigger] models_of(ps[p])[j]).key
        },
    }
}

proof fn lemma_find_slash(id: Seq<char>, n: int, i: int)
    requires
        0 <= i <= n < id.len(),
        id[n] == '/',
        forall|k: int| 0 <= k < n ==> id[k] != '/',
    ensures
        find_char_from(id, '/', i) == n,
    decreases n - i,
{
    if i < n {
        lemma_find_slash(id, n, i + 1);
    }
}

proof fn lemma_provider_index(ps: Seq<CatalogProviderView>, p: int, i: int)
    requires
        0 <= i <= p < ps.len(),
        forall|k: int| i <= k < p ==> ps[k].name != ps[p].name,
    ensures
        provider_index(ps, ps[p].name, i) == p,
    decreases p - i,
{
    if i < p {
        lemma_provider_index(ps, p, i + 1);
    }
}

proof fn lemma_model_key_index(ms: Seq<CatalogModelView>, m: int, i: int)
    requires
        0 <= i <= m < ms.len(),
        forall|k: int| i <= k < m ==> ms[k].key != ms[m].key,
    ensures
        model_key_index(ms, ms[m].key, i) == m,
    decreases m - i,
{
    if i < m {
        lemma_model_key_index(ms, m, i + 1);
    }
}

/// In a well-formed catalog, `provider/key` resolves to the model stored
/// under `key` in that provider (for a provider name without `/`).
pub proof fn lemma_namespaced_key_lookup(ps: Seq<CatalogProviderView>, p: int, m: int)
    requires
        catalog_wf(Some(ps)),
        0 <= p < ps.len(),
        0 <= m < models_of(ps[p]).len(),
        forall|k: int| 0 <= k < ps[p].name.len() ==> ps[p].name[k] != '/',
    ensures
        lookup_spec(Some(ps), ps[p].name + seq!['/'] + models_of(ps[p])[m].key) == Some(
            models_of(ps[p])[m],
        ),
{
    let name = ps[p].name;
    let ms = models_of(ps[p]);
    let key = ms[m].key;
    let id = name + seq!['/'] + key;
    assert forall|k: int| 0 <= k < name.len() implies id[k] != '/' by {
        assert(id[k] == name[k]);
    }
    lemma_find_slash(id, name.len() as int, 0);
    assert(id.take(name.len() as int) =~= name);
    assert(id.skip(name.len() + 1int) =~= key);
    assert forall|k: int| 0 <= k < p implies ps[k].name != ps[p].name by {
        assert(ps[k].name != ps[p].name);
    }
    lemma_provider_index(ps, p, 0);
    assert forall|k: int| 0 <= k < m implies ms[k].key != ms[m].key by {
        assert(models_of(ps[p])[k].key != models_of(ps[p])[m].key);
    }
    lemma_model_key_index(ms, m, 0);
}

/// There is at most one bare winner.
pub proof fn lemma_bare_winner_unique(
    ps: Seq<CatalogProviderView>,
    id: Seq<char>,
    p: int,
    m: int,
    p2: int,
    m2: int,
)
    requires
        is_bare_winner(ps, id, p, m),
        is_bare_winner(ps, id, p2, m2),
    ensures
        p == p2 && m == m2,
{
    assert(is_candidate(ps, id, p2, m2));
    assert(is_candidate(ps, id, p, m));
}

proof fn lemma_no_slash(id: Seq<char>, i: int)
    requires
        0 <= i <= id.len(),
        forall|k: int| 0 <= k < id.len() ==> id[k] != '/',
    ensures
        find_char_from(id, '/', i) == id.len(),
    decreases id.len() - i,
{
    if i < id.len() {
        lemma_no_slash(id, i + 1);
    }
}

/// The first model at or after `i` that answers to `id`, given that model
/// `last` does.
proof fn lemma_first_answering(ms: Seq<CatalogModelView>, id: Seq<char>, i: int, last: int) -> (m: int)
    requires
        0 <= i <= last < ms.len(),
        answers_to(ms[last], id),
        forall|k: int| 0 <= k < i ==> !answers_to(#[trigger] ms[k], id),
    ensures
        0 <= m <= last,
        answers_to(ms[m], id),
        forall|k: int| 0 <= k < m ==> !answers_to(#[trigger] ms[k], id),
    decreases last - i,
{
    if answers_to(ms[i], id) {
        i
    } else {
        lemma_first_answering(ms, id, i + 1, last)
    }
}

/// A bare id (no `/`) that some model of the `openai` provider answers to
/// resolves to a model of that provider, whatever other providers (listed or
/// not, earlier in database order or not) also carry it: the first of its
/// models, in database order, that answers to the id.
pub proof fn lemma_bare_id_prefers_openai(ps: Seq<CatalogProviderView>, id: Seq<char>, p: int, m: int)
    requires
        catalog_wf(Some(ps)),
        forall|k: int| 0 <= k < id.len() ==> id[k] != '/',
        is_candidate(ps, id, p, m),
        ps[p].name == "openai"@,
    ensures
        exists|w: int|
            0 <= w < models_of(ps[p]).len() && answers_to(models_of(ps[p])[w], id) && lookup_spec(
                Some(ps),
                id,
            ) == Some(#[trigger] models_of(ps[p])[w]),
{
    let ms = models_of(ps[p]);
    let w = lemma_first_answering(ms, id, 0, m);
    lemma_no_slash(id, 0);
    assert(namespaced_lookup(ps, id) is None);
    assert forall|p2: int, m2: int| #[trigger] is_candidate(ps, id, p2, m2) implies {
        ||| provider_rank(ps[p].name) < provider_rank(ps[p2].name)
        ||| (provider_rank(ps[p].name) == provider_rank(ps[p2].name) && position_le(p, w, p2, m2))
    } by {
        if provider_rank(ps[p2].name) == provider_rank(ps[p].name) {
            assert(ps[p2].name == ps[p].name);
            if p2 != p {
                if p2 < p {
                    assert(ps[p2].name != ps[p].name);
                } else {
                    assert(ps[p].name != ps[p2].name);
                }
            }
            assert(!answers_to(ms[m2], id) || m2 >= w);
        }
    }
    assert(is_bare_winner(ps, id, p, w));
    let c = choose|p1: int, m1: int| is_bare_winner(ps, id, p1, m1);
    lemma_bare_winner_unique(ps, id, c.0, c.1, p, w);
    assert(lookup_spec(Some(ps), id) == Some(ms[w]));
}

fn find_char(v: &Vec<char>, c: char) -> (k: usize)
    ensures
        k == find_char_from(v@, c, 0),
{
    let mut i: usize = 0;
    while i < v.len() && v[i] != c
        invariant
            0 <= i <= v.len(),
            find_char_from(v@, c, 0) == find_char_from(v@, c, i as int),
        decreases v.len() - i,
    {
        i += 1;
    }
    i
}

fn find_provider(ps: &Vec<CatalogProvider>, name: &str) -> (k: usize)
    ensures
        k == provider_index(ps.deep_view(), name@, 0),
{
    let mut i: usize = 0;
    while i < ps.len() && !str_eq(ps[i].name.as_str(), name)
        invariant
            0 <= i <= ps.len(),
            provider_index(ps.deep_view(), name@, 0) == provider_index(
                ps.deep_view(),
                name@,
                i as int,
            ),
        decreases ps.len() - i,
    {
        i += 1;
    }
    i
}

fn find_model_by_key(ms: &Vec<CatalogModel>, key: &str) -> (k: usize)
    ensures
        k == model_key_index(ms.deep_view(), key@, 0),
{
    let mut i: usize = 0;
    while i < ms.len() && !str_eq(ms[i].key.as_str(), key)
        invariant
            0 <= i <= ms.len(),
            model_key_index(ms.deep_view(), key@, 0) == model_key_index(
                ms.deep_view(),
                key@,
                i as int,
            ),
        decreases ms.len() - i,
    {
        i += 1;
    }
    i
}

fn opt_str_is(o: &Option<String>, s: &str) -> (r: bool)
    ensures
        r == (o.deep_view() == Some(s@)),
{
    match o {
        Some(x) => str_eq(x.as_str(), s),
        None => false,
    }
}

fn find_model_by_id(ms: &Vec<CatalogModel>, id: &str) -> (k: usize)
    ensures
        k == model_id_index(ms.deep_view(), id@, 0),
{
    let mut i: usize = 0;
    while i < ms.len() && !opt_str_is(&ms[i].id, id)
        invariant
            0 <= i <= ms.len(),
            model_id_index(ms.deep_view(), id@, 0) == model_id_index(
                ms.deep_view(),
                id@,
                i as int,
            ),
        decreases ms.len() - i,
    {
        i += 1;
    }
    i
}

/// Executable `provider_rank`.
fn rank_of(name: &str) -> (r: usize)
    ensures
        r == provider_rank(name@),
{
    if str_eq(name, "openai") {
        0
    } else if str_eq(name, "anthropic") {
        1
    } else if str_eq(name, "google") {
        2
    } else if str_eq(name, "deepseek") {
        3
    } else if str_eq(name, "mistral") {
        4
    } else if str_eq(name, "meta") {
        5
    } else if str_eq(name, "xai") {
        6
    } else if str_eq(name, "alibaba") {
        7
    } else if str_eq(name, "moonshotai") {
        8
    } else if str_eq(name, "groq") {
        9
    } else if str_eq(name, "openrouter") {
        10
    } else {
        11
    }
}

impl ModelCatalog {
    /// Look up model metadata by id. A namespaced id (`provider/model`)
    /// resolves within that provider first; otherwise (or when that finds
    /// nothing) the id is matched across all providers, preferring canonical
    /// providers and, among equals, the first in database order.
    pub fn lookup<'a>(&'a self, model_id: &str) -> (r: Option<&'a CatalogModel>)
        ensures
            match r {
                Some(m) => lookup_spec(self@, model_id@) == Some(m.deep_view()),
                None => lookup_spec(self@, model_id@) is None,
            },
    {
        let providers = match &self.providers {
            Some(ps) => ps,
            None => return None,
        };
        let ghost ps = providers.deep_view();
        let v = chars_of(model_id);
        let k = find_char(&v, '/');
        if k < v.len() {
            let prefix = string_of_range(&v, 0, k);
            let rest = string_of_range(&v, k + 1, v.len());
            assert(prefix@ == model_id@.take(k as int));
            assert(rest@ == model_id@.skip(k + 1));
            let p = find_provider(providers, prefix.as_str());
            if p < providers.len() {
                if let Some(models) = &providers[p].models {
                    let a = find_model_by_key(models, rest.as_str());
                    if a < models.len() {
                        return Some(&models[a]);
                    }
                    let b = find_model_by_id(models, rest.as_str());
                    if b < models.len() {
                        return Some(&models[b]);
                    }
                }
            }
        }
        assert(namespaced_lookup(ps, model_id@) is None);
        self.lookup_bare(providers, model_id)
    }

    fn lookup_bare<'a>(&'a self, providers: &'a Vec<CatalogProvider>, model_id: &str) -> (r: Option<
        &'a CatalogModel,
    >)
        ensures
            match r {
                Some(m) => bare_lookup(providers.deep_view(), model_id@) == Some(m.deep_view()),
                None => bare_lookup(providers.deep_view(), model_id@) is None,
            },
    {
        let ghost ps = providers.deep_view();
        let ghost id = model_id@;
        let mut best: Option<(usize, usize)> = None;
        let mut best_rank: usize = 0;
        let mut i: usize = 0;
        while i < providers.len()
            invariant
                ps == providers.deep_view(),
                id == model_id@,
                0 <= i <= providers.len(),
                match best {
                    None => forall|p2: int, m2: int|
                        #![trigger is_candidate(ps, id, p2, m2)]
                        is_candidate(ps, id, p2, m2) ==> p2 >= i,
                    Some((bp, bm)) => {
                        &&& is_candidate(ps, id, bp as int, bm as int)
                        &&& bp < i
                        &&& best_rank == provider_rank(ps[bp as int].name)
                        &&& forall|p2: int, m2: int|
                            #![trigger is_candidate(ps, id, p2, m2)]
                            is_candidate(ps, id, p2, m2) && p2 < i ==> {
                                ||| provider_rank(ps[bp as int].name) < provider_rank(ps[p2].name)
                                ||| (provider_rank(ps[bp as int].name) == provider_rank(ps[p2].name)
                                    && position_le(bp as int, bm as int, p2, m2))
                            }
                    },
                },
            decreases providers.len() - i,
        {
            let prov = &providers[i];
            if let Some(models) = &prov.models {
                let rank = rank_of(prov.name.as_str());
                let mut j: usize = 0;
                while j < models.len()
                    invariant
                        ps == providers.deep_view(),
                        id == model_id@,
                        0 <= i < providers.len(),
                        prov == providers@[i as int],
                        prov.models == Some(*models),
                        rank == provider_rank(ps[i as int].name),
                        0 <= j <= models.len(),
                        match best {
                            None => forall|p2: int, m2: int|
                                #![trigger is_candidate(ps, id, p2, m2)]
                                is_candidate(ps, id, p2, m2) ==> position_le(
                                    i as int,
                                    j as int,
                                    p2,
                                    m2,
                                ),
                            Some((bp, bm)) => {
                                &&& is_candidate(ps, id, bp as int, bm as int)
                                &&& position_le(bp as int, bm as int, i as int, j as int)
                                &&& !(bp == i && bm == j)
                                &&& best_rank == provider_rank(ps[bp as int].name)
                                &&& forall|p2: int, m2: int|
                                    #![trigger is_candidate(ps, id, p2, m2)]
                                    is_candidate(ps, id, p2, m2) && !position_le(
                                        i as int,
                                        j as int,
                                        p2,
                                        m2,
                                    ) ==> {
                                        ||| provider_rank(ps[bp as int].name) < provider_rank(
                                            ps[p2].name,
                                        )
                                        ||| (provider_rank(ps[bp as int].name) == provider_rank(
                                            ps[p2].name,
                                        ) && position_le(bp as int, bm as int, p2, m2))
                                    }
                            },
                        },
                    decreases models.len() - j,
                {
                    let m = &models[j];
                    let matched = str_eq(m.key.as_str(), model_id) || opt_str_is(&m.id, model_id);
                    assert(models_of(ps[i as int]) == models.deep_view());
                    assert(matched == is_candidate(ps, id, i as int, j as int));
                    let replace = match best {
                        None => true,
                        Some(_) => rank < best_rank,
                    };
                    if matched && replace {
                        best = Some((i, j));
                        best_rank = rank;
                    }
                    j += 1;
                }
            } else {
                assert(models_of(ps[i as int]).len() == 0);
            }
            i += 1;
        }
        match best {
            None => {
                assert forall|p: int, m: int| !is_bare_winner(ps, id, p, m) by {
                    if is_bare_winner(ps, id, p, m) {
                        assert(is_candidate(ps, id, p, m));
                    }
                }
                None
            },
            Some((bp, bm)) => {
                assert(is_bare_winner(ps, id, bp as int, bm as int));
                let ghost w = choose|p: int, m: int| is_bare_winner(ps, id, p, m);
                proof {
                    lemma_bare_winner_unique(ps, id, bp as int, bm as int, w.0, w.1);
                }
                let models = providers[bp].models.as_ref().unwrap();
                Some(&models[bm])
            },
        }
    }
}


// ─── Thinking-level maps ──────────────────────────────────

/// The effort values in force after the first `k` reasoning options: those of
/// the last `effort` option that carries a `values` array (none if there is no
/// such option).
pub open spec fn effort_values_upto(opts: Seq<ReasoningOptionView>, k: int) -> Seq<Seq<char>>
    decreases k,
{
    if k <= 0 || k > opts.len() {
        Seq::empty()
    } else if opts[k - 1].kind == Some("effort"@) && opts[k - 1].values is Some {
        opts[k - 1].values->0
    } else {
        effort_values_upto(opts, k - 1)
    }
}

/// Whether some reasoning option is a `toggle`.
pub open spec fn has_toggle(opts: Seq<ReasoningOptionView>) -> bool {
    exists|i: int| 0 <= i < opts.len() && #[trigger] opts[i].kind == Some("toggle"@)
}

/// The thinking levels a map lists, in order.
pub open spec fn thinking_levels() -> Seq<Seq<char>> {
    seq!["minimal"@, "low"@, "medium"@, "high"@, "xhigh"@, "max"@]
}

/// A level maps to itself when the upstream advertises it, else it is hidden.
pub open spec fn level_entry(effort: Seq<Seq<char>>, level: Seq<char>) -> (
    Seq<char>,
    Option<Seq<char>>,
) {
    (level, if effort.contains(level) { Some(level) } else { None })
}

/// The thinking-level map a catalog model's `reasoning_options` describe:
/// every listed level maps to the identically named level, unlisted levels
/// are hidden, and `off` is hidden too when the model can neither toggle
/// thinking nor take the effort `none`. `None` when no effort values are
/// advertised.
pub open spec fn thinking_map_spec(m: CatalogModelView) -> Option<LevelsView> {
    match m.reasoning_options {
        None => None,
        Some(opts) => {
            let effort = effort_values_upto(opts, opts.len() as int);
            if effort.len() == 0 {
                None
            } else {
                let base = thinking_levels().map_values(|l: Seq<char>| level_entry(effort, l));
                if !has_toggle(opts) && !effort.contains("none"@) {
                    Some(base.push(("off"@, None)))
                } else {
                    Some(base)
                }
            }
        },
    }
}

fn strings_contain(v: &Vec<String>, s: &str) -> (r: bool)
    ensures
        r == v.deep_view().contains(s@),
{
    let mut i: usize = 0;
    while i < v.len()
        invariant
            0 <= i <= v.len(),
            forall|j: int| 0 <= j < i ==> v.deep_view()[j] != s@,
        decreases v.len() - i,
    {
        if str_eq(v[i].as_str(), s) {
            assert(v.deep_view()[i as int] == s@);
            return true;
        }
        i += 1;
    }
    false
}

fn push_level(levels: &mut Vec<(String, Option<String>)>, effort: &Vec<String>, level: &str)
    ensures
        final(levels).deep_view() == old(levels).deep_view().push(
            level_entry(effort.deep_view(), level@),
        ),
{
    let supported = strings_contain(effort, level);
    let target = if supported {
        Some(owned(level))
    } else {
        None
    };
    levels.push((owned(level), target));
    assert(levels.deep_view() =~= old(levels).deep_view().push(
        level_entry(effort.deep_view(), level@),
    ));
}

/// Build a thinking-level map from a catalog model's `reasoning_options`
/// (see [`thinking_map_spec`]).
pub fn thinking_level_map_from_meta(meta: &CatalogModel) -> (r: Option<ThinkingLevelMap>)
    ensures
        r.deep_view() == thinking_map_spec(meta.deep_view()),
{
    let options = match &meta.reasoning_options {
        Some(o) => o,
        None => return None,
    };
    let ghost opts = options.deep_view();
    let mut has_toggle_opt = false;
    let mut effort_at: Option<usize> = None;
    let mut i: usize = 0;
    while i < options.len()
        invariant
            opts == options.deep_view(),
            0 <= i <= options.len(),
            has_toggle_opt == exists|j: int| 0 <= j < i && #[trigger] opts[j].kind == Some("toggle"@),
            match effort_at {
                None => effort_values_upto(opts, i as int) == Seq::<Seq<char>>::empty(),
                Some(k) => k < i && options@[k as int].values is Some && effort_values_upto(
                    opts,
                    i as int,
                ) == options@[k as int].values->0.deep_view(),
            },
        decreases options.len() - i,
    {
        let o = &options[i];
        if opt_str_is(&o.kind, "toggle") {
            has_toggle_opt = true;
        } else if opt_str_is(&o.kind, "effort") {
            if o.values.is_some() {
                effort_at = Some(i);
            }
        }
        proof {
            reveal_strlit("toggle");
            reveal_strlit("effort");
            assert("toggle"@[0] != "effort"@[0]);
            if opts[i as int].kind == Some("toggle"@) {
                assert(opts[i as int].kind != Some("effort"@));
            }
        }
        i += 1;
    }
    let empty: Vec<String> = Vec::new();
    let effort: &Vec<String> = match effort_at {
        Some(k) => options[k].values.as_ref().unwrap(),
        None => &empty,
    };
    assert(effort.deep_view() == effort_values_upto(opts, opts.len() as int));
    if effort.len() == 0 {
        return None;
    }
    let mut levels: Vec<(String, Option<String>)> = Vec::new();
    push_level(&mut levels, effort, "minimal");
    push_level(&mut levels, effort, "low");
    push_level(&mut levels, effort, "medium");
    push_level(&mut levels, effort, "high");
    push_level(&mut levels, effort, "xhigh");
    push_level(&mut levels, effort, "max");
    let ghost ev = effort.deep_view();
    assert(levels.deep_view() =~= thinking_levels().map_values(
        |l: Seq<char>| level_entry(ev, l),
    ));
    if !has_toggle_opt && !strings_contain(effort, "none") {
        levels.push((owned("off"), None));
    }
    Some(ThinkingLevelMap { levels })
}

// ─── Enrichment ────────────────────────────────────────────

/// Input modalities the configuration accepts.
pub open spec fn is_accepted_input(s: Seq<char>) -> bool {
    s == "text"@ || s == "image"@
}

/// The accepted modalities of `s`, in order.
pub open spec fn accepted_inputs(s: Seq<Seq<char>>) -> Seq<Seq<char>>
    decreases s.len(),
{
    if s.len() == 0 {
        Seq::empty()
    } else if is_accepted_input(s.last()) {
        accepted_inputs(s.drop_last()).push(s.last())
    } else {
        accepted_inputs(s.drop_last())
    }
}

/// A window field filled from the catalog: only when still 0 and the catalog
/// value is positive, saturating at `u32::MAX`.
pub open spec fn filled_window(cur: u32, v: Option<u64>) -> u32 {
    if cur == 0 && v is Some && v->0 > 0 {
        if v->0 > u32::MAX {
            u32::MAX
        } else {
            v->0 as u32
        }
    } else {
        cur
    }
}

/// Catalog prices as entry prices, absent ones as `0.0`.
pub open spec fn cost_of(c: CatalogCost) -> ModelCost {
    ModelCost {
        input: match c.input {
            Some(x) => x,
            None => 0,
        },
        output: match c.output {
            Some(x) => x,
            None => 0,
        },
        cache_read: match c.cache_read {
            Some(x) => x,
            None => 0,
        },
        cache_write: match c.cache_write {
            Some(x) => x,
            None => 0,
        },
    }
}

/// `e` with its unset fields filled from catalog model `m`: unset means
/// `None`, `0` or empty, so explicit values always win. The thinking-level
/// map is only filled when reasoning is not explicitly disabled.
pub open spec fn enrich_view(e: ModelEntryView, m: CatalogModelView) -> ModelEntryView {
    let reasoning = if e.reasoning is None {
        m.reasoning
    } else {
        e.reasoning
    };
    let accepted = match m.input_modalities {
        Some(ins) => accepted_inputs(ins),
        None => Seq::empty(),
    };
    let tlm = thinking_map_spec(m);
    ModelEntryView {
        id: e.id,
        name: if e.name is None {
            m.name
        } else {
            e.name
        },
        reasoning,
        context_window: match m.limit {
            Some(l) => filled_window(e.context_window, l.context),
            None => e.context_window,
        },
        max_tokens: match m.limit {
            Some(l) => filled_window(e.max_tokens, l.output),
            None => e.max_tokens,
        },
        input: if e.input.len() == 0 && accepted.len() > 0 {
            accepted
        } else {
            e.input
        },
        cost: if e.cost is None && m.cost is Some {
            Some(cost_of(m.cost->0))
        } else {
            e.cost
        },
        thinking_level_map: if e.thinking_level_map is None && reasoning != Some(false)
            && tlm is Some {
            tlm
        } else {
            e.thinking_level_map
        },
    }
}

/// `e` enriched from whatever the catalog resolves its id to.
pub open spec fn enrich_opt(e: ModelEntryView, cat: Option<Seq<CatalogProviderView>>) -> ModelEntryView {
    match lookup_spec(cat, e.id) {
        Some(m) => enrich_view(e, m),
        None => e,
    }
}

/// Explicit values always win: enriching never changes the id, nor any field
/// the entry already set (a name, a reasoning flag, a non-zero window, a
/// non-empty input list, a cost, a thinking-level map).
pub proof fn lemma_enrich_keeps_explicit(e: ModelEntryView, cat: Option<Seq<CatalogProviderView>>)
    ensures
        enrich_opt(e, cat).id == e.id,
        e.name is Some ==> enrich_opt(e, cat).name == e.name,
        e.reasoning is Some ==> enrich_opt(e, cat).reasoning == e.reasoning,
        e.context_window != 0 ==> enrich_opt(e, cat).context_window == e.context_window,
        e.max_tokens != 0 ==> enrich_opt(e, cat).max_tokens == e.max_tokens,
        e.input.len() > 0 ==> enrich_opt(e, cat).input == e.input,
        e.cost is Some ==> enrich_opt(e, cat).cost == e.cost,
        e.thinking_level_map is Some ==> enrich_opt(e, cat).thinking_level_map
            == e.thinking_level_map,
{
}

/// An unset cost is filled field by field from the catalog model the id
/// resolves to: each price is the catalog's price of the same name, `0.0`
/// (bit pattern 0) where the catalog gives none.
pub proof fn lemma_enrich_fills_cost_by_name(
    e: ModelEntryView,
    cat: Option<Seq<CatalogProviderView>>,
    m: CatalogModelView,
)
    requires
        lookup_spec(cat, e.id) == Some(m),
        e.cost is None,
        m.cost is Some,
    ensures
        enrich_opt(e, cat).cost is Some,
        enrich_opt(e, cat).cost->0.input == (match m.cost->0.input {
            Some(x) => x,
            None => 0u64,
        }),
        enrich_opt(e, cat).cost->0.output == (match m.cost->0.output {
            Some(x) => x,
            None => 0u64,
        }),
        enrich_opt(e, cat).cost->0.cache_read == (match m.cost->0.cache_read {
            Some(x) => x,
            None => 0u64,
        }),
        enrich_opt(e, cat).cost->0.cache_write == (match m.cost->0.cache_write {
            Some(x) => x,
            None => 0u64,
        }),
{
}

/// Reasoning that is explicitly disabled always wins: enriching such an
/// entry never gives it a thinking-level map it did not have, and neither
/// does `fill_thinking_level_map`; an explicit map is never replaced either.
pub proof fn lemma_disabled_reasoning_gets_no_map(
    e: ModelEntryView,
    cat: Option<Seq<CatalogProviderView>>,
)
    ensures
        e.reasoning == Some(false) ==> enrich_opt(e, cat).thinking_level_map
            == e.thinking_level_map,
        e.reasoning == Some(false) ==> !fills_thinking_map(e, cat),
        e.thinking_level_map is Some ==> !fills_thinking_map(e, cat),
        fills_thinking_map(e, cat) ==> e.reasoning != Some(false) && e.thinking_level_map is None,
{
}

/// Enriching is idempotent: a second pass from the same catalog changes
/// nothing more.
pub proof fn lemma_enrich_idempotent(e: ModelEntryView, cat: Option<Seq<CatalogProviderView>>)
    ensures
        enrich_opt(enrich_opt(e, cat), cat) == enrich_opt(e, cat),
{
    let once = enrich_opt(e, cat);
    assert(once.id == e.id);
    if let Some(m) = lookup_spec(cat, e.id) {
        let twice = enrich_view(once, m);
        assert(twice.context_window == once.context_window);
        assert(twice.max_tokens == once.max_tokens);
        assert(twice.input == once.input);
        assert(twice == once);
    }
}

fn clone_opt_string(o: &Option<String>) -> (r: Option<String>)
    ensures
        r.deep_view() == o.deep_view(),
{
    match o {
        Some(s) => Some(s.clone()),
        None => None,
    }
}

fn accepted_of(ins: &Vec<String>) -> (r: Vec<String>)
    ensures
        r.deep_view() == accepted_inputs(ins.deep_view()),
{
    let mut r: Vec<String> = Vec::new();
    let mut i: usize = 0;
    while i < ins.len()
        invariant
            0 <= i <= ins.len(),
            r.deep_view() == accepted_inputs(ins.deep_view().take(i as int)),
        decreases ins.len() - i,
    {
        let ghost prev = r.deep_view();
        let s = &ins[i];
        assert(ins.deep_view().take(i + 1).drop_last() =~= ins.deep_view().take(i as int));
        if str_eq(s.as_str(), "text") || str_eq(s.as_str(), "image") {
            r.push(s.clone());
            assert(r.deep_view() =~= prev.push(s@));
        }
        i += 1;
    }
    assert(ins.deep_view().take(ins.len() as int) =~= ins.deep_view());
    r
}

fn fill_window(cur: u32, v: Option<u64>) -> (r: u32)
    ensures
        r == filled_window(cur, v),
{
    if cur == 0 {
        if let Some(x) = v {
            if x > 0 {
                return if x > u32::MAX as u64 {
                    u32::MAX
                } else {
                    x as u32
                };
            }
        }
    }
    cur
}

fn unwrap_bits(v: Option<u64>) -> (r: u64)
    ensures
        r == match v {
            Some(x) => x,
            None => 0,
        },
{
    match v {
        Some(x) => x,
        None => 0,
    }
}

fn apply_meta(entry: &mut ModelEntry, meta: &CatalogModel)
    ensures
        final(entry)@ == enrich_view(old(entry)@, meta.deep_view()),
{
    if entry.name.is_none() {
        entry.name = clone_opt_string(&meta.name);
    }
    if entry.reasoning.is_none() {
        entry.reasoning = meta.reasoning;
    }
    if let Some(limit) = meta.limit {
        entry.context_window = fill_window(entry.context_window, limit.context);
        entry.max_tokens = fill_window(entry.max_tokens, limit.output);
    }
    if entry.input.len() == 0 {
        if let Some(inputs) = &meta.input_modalities {
            let mapped = accepted_of(inputs);
            if mapped.len() > 0 {
                entry.input = mapped;
            }
        }
    }
    if entry.cost.is_none() {
        if let Some(c) = meta.cost {
            entry.cost = Some(
                ModelCost {
                    input: unwrap_bits(c.input),
                    output: unwrap_bits(c.output),
                    cache_read: unwrap_bits(c.cache_read),
                    cache_write: unwrap_bits(c.cache_write),
                },
            );
        }
    }
    if entry.thinking_level_map.is_none() && entry.reasoning != Some(false) {
        let map = thinking_level_map_from_meta(meta);
        if map.is_some() {
            entry.thinking_level_map = map;
        }
    }
}

impl ModelCatalog {
    /// Fill unset model parameters from the catalog (see [`enrich_view`]).
    /// Returns whether catalog metadata was found for the model id; when it
    /// was not, the entry is left unchanged.
    pub fn enrich(&self, entry: &mut ModelEntry) -> (found: bool)
        ensures
            found == lookup_spec(self@, old(entry)@.id) is Some,
            final(entry)@ == enrich_opt(old(entry)@, self@),
    {
        let meta = match self.lookup(entry.id.as_str()) {
            Some(m) => m,
            None => return false,
        };
        apply_meta(entry, meta);
        true
    }
}


impl ModelCatalog {
    /// Fill the entry's thinking-level map from the catalog when it has no
    /// explicit map and reasoning is not explicitly disabled. A namespaced id
    /// that resolves to nothing falls back to the part after the first `/`.
    /// Returns whether a map was applied; otherwise the entry is unchanged.
    pub fn fill_thinking_level_map(&self, entry: &mut ModelEntry) -> (applied: bool)
        ensures
            applied == fills_thinking_map(old(entry)@, self@),
            final(entry)@ == (if applied {
                ModelEntryView {
                    thinking_level_map: thinking_map_spec(fill_source(self@, old(entry)@.id)->0),
                    ..old(entry)@
                }
            } else {
                old(entry)@
            }),
    {
        if entry.thinking_level_map.is_some() || entry.reasoning == Some(false) {
            return false;
        }
        let mut meta = self.lookup(entry.id.as_str());
        if meta.is_none() {
            let v = chars_of(entry.id.as_str());
            let k = find_char(&v, '/');
            if k < v.len() {
                let rest = string_of_range(&v, k + 1, v.len());
                assert(rest@ == entry.id@.skip(k + 1));
                meta = self.lookup(rest.as_str());
            }
        }
        let meta = match meta {
            Some(m) => m,
            None => return false,
        };
        let map = thinking_level_map_from_meta(meta);
        match map {
            Some(m) => {
                entry.thinking_level_map = Some(m);
                true
            },
            None => false,
        }
    }
}

/// The catalog model `fill_thinking_level_map` draws on for id `id`: the
/// model the id resolves to, else, for a namespaced id, the model the part
/// after the first `/` resolves to.
pub open spec fn fill_source(cat: Option<Seq<CatalogProviderView>>, id: Seq<char>) -> Option<
    CatalogModelView,
> {
    match lookup_spec(cat, id) {
        Some(m) => Some(m),
        None => {
            let k = find_char_from(id, '/', 0);
            if k < id.len() {
                lookup_spec(cat, id.skip(k + 1))
            } else {
                None
            }
        },
    }
}

/// Whether `fill_thinking_level_map` applies a map to `e`.
pub open spec fn fills_thinking_map(e: ModelEntryView, cat: Option<Seq<CatalogProviderView>>) -> bool {
    &&& e.thinking_level_map is None
    &&& e.reasoning != Some(false)
    &&& fill_source(cat, e.id) is Some
    &&& thinking_map_spec(fill_source(cat, e.id)->0) is Some
}

/// Whether the entry carries the default window signature: text input only,
/// context window 128000 and 16384 output tokens.
pub open spec fn has_default_window_spec(e: ModelEntryView) -> bool {
    &&& e.input == seq!["text"@]
    &&& e.context_window == DEFAULT_CONTEXT_WINDOW
    &&& e.max_tokens == DEFAULT_MAX_TOKENS
}

/// Whether the entry still carries the default window signature (and so came
/// from an unparameterized source rather than explicit user values).
pub fn has_default_window(entry: &ModelEntry) -> (r: bool)
    ensures
        r == has_default_window_spec(entry@),
{
    let r = entry.input.len() == 1 && str_eq(entry.input[0].as_str(), "text")
        && entry.context_window == DEFAULT_CONTEXT_WINDOW && entry.max_tokens == DEFAULT_MAX_TOKENS;
    proof {
        if entry.input.len() == 1 && entry@.input[0] == "text"@ {
            assert(entry@.input =~= seq!["text"@]);
        }
        if has_default_window_spec(entry@) {
            assert(entry@.input.len() == 1);
            assert(entry@.input[0] == seq!["text"@][0]);
        }
    }
    r
}

/// Whether the entry is a placeholder: default window signature and no cost.
pub fn is_unparameterized(entry: &ModelEntry) -> (r: bool)
    ensures
        r == (has_default_window_spec(entry@) && entry@.cost is None),
{
    has_default_window(entry) && entry.cost.is_none()
}

/// Explicit values win on write paths too: the reset to catalog values only
/// applies to an entry with text-only input, a 128000 context window and
/// 16384 output tokens all at once. Any other entry keeps each field it set
/// (a non-zero context window, non-zero output tokens, a non-empty input
/// list) through `enrich_entry_with`.
pub proof fn lemma_write_path_keeps_explicit_window(
    e: ModelEntryView,
    cat: Option<Seq<CatalogProviderView>>,
)
    requires
        !(e.input == seq!["text"@] && e.context_window == 128000 && e.max_tokens == 16384),
    ensures
        e.context_window != 0 ==> enrich_entry_spec(e, cat).context_window == e.context_window,
        e.max_tokens != 0 ==> enrich_entry_spec(e, cat).max_tokens == e.max_tokens,
        e.input.len() > 0 ==> enrich_entry_spec(e, cat).input == e.input,
{
    assert(reset_default_window(e) == e);
    lemma_enrich_keeps_explicit(e, cat);
}

/// An entry whose output-token limit is neither unset nor the default 16384
/// keeps it through `enrich_entry_with`, whatever the catalog says.
pub proof fn lemma_write_path_keeps_max_tokens(e: ModelEntryView, cat: Option<Seq<CatalogProviderView>>)
    requires
        e.max_tokens != 0,
        e.max_tokens != 16384,
    ensures
        enrich_entry_spec(e, cat).max_tokens == e.max_tokens,
{
    lemma_write_path_keeps_explicit_window(e, cat);
}

/// `e` with the default window signature cleared to the unset sentinels
/// (0 / 0 / empty input), so catalog values can fill it.
pub open spec fn reset_default_window(e: ModelEntryView) -> ModelEntryView {
    if has_default_window_spec(e) {
        ModelEntryView { context_window: 0, max_tokens: 0, input: Seq::empty(), ..e }
    } else {
        e
    }
}

/// `e` with still-unset window fields set back to the defaults.
pub open spec fn restore_defaults(e: ModelEntryView) -> ModelEntryView {
    ModelEntryView {
        input: if e.input.len() == 0 {
            seq!["text"@]
        } else {
            e.input
        },
        context_window: if e.context_window == 0 {
            DEFAULT_CONTEXT_WINDOW
        } else {
            e.context_window
        },
        max_tokens: if e.max_tokens == 0 {
            DEFAULT_MAX_TOKENS
        } else {
            e.max_tokens
        },
        ..e
    }
}

/// What enriching one entry on a write path makes of it.
pub open spec fn enrich_entry_spec(e: ModelEntryView, cat: Option<Seq<CatalogProviderView>>) -> ModelEntryView {
    restore_defaults(enrich_opt(reset_default_window(e), cat))
}

/// Enrich one entry on a write path: an entry still carrying the default
/// window signature is reset so catalog values fill its window and input
/// too; explicit non-default values are kept; whatever is still unset
/// afterwards gets the defaults back.
pub fn enrich_entry_with(entry: &mut ModelEntry, catalog: &ModelCatalog)
    ensures
        final(entry)@ == enrich_entry_spec(old(entry)@, catalog@),
{
    if has_default_window(entry) {
        entry.context_window = 0;
        entry.max_tokens = 0;
        entry.input = Vec::new();
        assert(entry@.input =~= Seq::<Seq<char>>::empty());
    }
    let ghost reset = entry@;
    assert(reset == reset_default_window(old(entry)@));
    catalog.enrich(entry);
    if entry.input.len() == 0 {
        let mut input: Vec<String> = Vec::new();
        input.push(owned("text"));
        entry.input = input;
        assert(entry@.input =~= seq!["text"@]);
    }
    if entry.context_window == 0 {
        entry.context_window = DEFAULT_CONTEXT_WINDOW;
    }
    if entry.max_tokens == 0 {
        entry.max_tokens = DEFAULT_MAX_TOKENS;
    }
}

/// Enrich a batch of entries from one (freshly loaded) catalog, each as
/// [`enrich_entry_with`] does.
pub fn enrich_entries_fresh(entries: &mut Vec<ModelEntry>, catalog: &ModelCatalog)
    ensures
        final(entries)@.len() == old(entries)@.len(),
        forall|i: int|
            0 <= i < old(entries)@.len() ==> (#[trigger] final(entries)@[i])@ == enrich_entry_spec(
                old(entries)@[i]@,
                catalog@,
            ),
{
    let mut i: usize = 0;
    while i < entries.len()
        invariant
            0 <= i <= entries.len(),
            entries@.len() == old(entries)@.len(),
            forall|j: int|
                0 <= j < i ==> (#[trigger] entries@[j])@ == enrich_entry_spec(
                    old(entries)@[j]@,
                    catalog@,
                ),
            forall|j: int| i <= j < entries@.len() ==> #[trigger] entries@[j] == old(entries)@[j],
        decreases entries.len() - i,
    {
        enrich_entry_with(&mut entries[i], catalog);
        i += 1;
    }
}

} // verus!
