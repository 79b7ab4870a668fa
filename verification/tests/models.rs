use pi_switch::models::{cache_path, MODELS_DEV_URL};
use pi_switch::models::{cache_is_stale, catalog_load_plan, CACHE_TTL_SECS};
use pi_switch::models::{
    enrich_entries_fresh, enrich_entry_with, has_default_window, is_unparameterized,
    thinking_level_map_from_meta, CatalogCost, CatalogLimit, CatalogModel, CatalogProvider,
    ModelCatalog, ModelCost, ModelEntry, ReasoningOption, ThinkingLevelMap,
};

fn s(x: &str) -> String {
    x.to_string()
}

fn strings(xs: &[&str]) -> Vec<String> {
    xs.iter().map(|x| x.to_string()).collect()
}

fn bits(x: f64) -> Option<u64> {
    Some(x.to_bits())
}

fn model(key: &str) -> CatalogModel {
    CatalogModel {
        key: s(key),
        id: Some(s(key)),
        name: None,
        reasoning: None,
        limit: None,
        input_modalities: None,
        cost: None,
        reasoning_options: None,
    }
}

fn provider(name: &str, models: Vec<CatalogModel>) -> CatalogProvider {
    CatalogProvider { name: s(name), models: Some(models) }
}

fn catalog_with(providers: Vec<CatalogProvider>) -> ModelCatalog {
    ModelCatalog { providers: Some(providers) }
}

fn sample_db() -> ModelCatalog {
    let mut luna = model("gpt-5.6-luna");
    luna.name = Some(s("GPT-5.6 Luna"));
    luna.reasoning = Some(true);
    luna.input_modalities = Some(strings(&["text", "image", "pdf"]));
    luna.limit = Some(CatalogLimit { context: Some(1050000), output: Some(128000) });
    luna.cost = Some(CatalogCost {
        input: bits(0.2),
        output: bits(1.2),
        cache_read: bits(0.02),
        cache_write: bits(0.25),
    });
    let mut image = model("gpt-image-2");
    image.input_modalities = Some(strings(&["text", "image"]));
    image.limit = Some(CatalogLimit { context: Some(0), output: Some(0) });
    image.cost = Some(CatalogCost {
        input: bits(5.0),
        output: bits(30.0),
        cache_read: bits(1.25),
        cache_write: None,
    });
    let mut viv = model("gpt-5.6-luna");
    viv.name = Some(s("GPT 5.6 Luna (vivgrid)"));
    viv.input_modalities = Some(strings(&["text"]));
    viv.limit = Some(CatalogLimit { context: Some(900000), output: Some(64000) });
    viv.cost = Some(CatalogCost { input: bits(1.0), output: bits(6.0), cache_read: None, cache_write: None });
    catalog_with(vec![provider("openai", vec![luna, image]), provider("vivgrid", vec![viv])])
}

fn entry(id: &str) -> ModelEntry {
    ModelEntry { id: s(id), ..Default::default() }
}

fn sentinel(id: &str) -> ModelEntry {
    ModelEntry { id: s(id), input: Vec::new(), context_window: 0, max_tokens: 0, ..Default::default() }
}

fn level(map: &ThinkingLevelMap, name: &str) -> Option<Option<String>> {
    map.levels.iter().find(|(k, _)| k == name).map(|(_, v)| v.clone())
}

fn effort_option(values: &[&str]) -> ReasoningOption {
    ReasoningOption { kind: Some(s("effort")), values: Some(strings(values)) }
}

fn reasoning_catalog(provider_name: &str, id: &str, options: Vec<ReasoningOption>) -> ModelCatalog {
    let mut m = model(id);
    m.reasoning = Some(true);
    m.reasoning_options = Some(options);
    catalog_with(vec![provider(provider_name, vec![m])])
}

#[test]
fn bare_id_prefers_canonical_provider() {
    let catalog = sample_db();
    let meta = catalog.lookup("gpt-5.6-luna").expect("found");
    assert_eq!(meta.name.as_deref(), Some("GPT-5.6 Luna"));
}

#[test]
fn namespaced_id_resolves_exact_provider() {
    let catalog = sample_db();
    let meta = catalog.lookup("vivgrid/gpt-5.6-luna").expect("found");
    assert_eq!(meta.name.as_deref(), Some("GPT 5.6 Luna (vivgrid)"));
}

#[test]
fn missing_id_returns_none() {
    let catalog = sample_db();
    assert!(catalog.lookup("no-such-model").is_none());
}

#[test]
fn enrich_fills_params_and_filters_input() {
    let catalog = sample_db();
    let mut entry = sentinel("gpt-5.6-luna");
    assert!(catalog.enrich(&mut entry));
    assert_eq!(entry.name.as_deref(), Some("GPT-5.6 Luna"));
    assert_eq!(entry.context_window, 1050000);
    assert_eq!(entry.max_tokens, 128000);
    // "pdf" is dropped — only text/image are accepted.
    assert_eq!(entry.input, vec!["text", "image"]);
    assert_eq!(entry.reasoning, Some(true));
    let cost = entry.cost.expect("cost filled");
    assert_eq!(f64::from_bits(cost.input), 0.2);
    assert_eq!(f64::from_bits(cost.cache_write), 0.25);
}

#[test]
fn enrich_keeps_zero_limit_models_at_defaults() {
    let catalog = sample_db();
    let mut entry = sentinel("gpt-image-2");
    assert!(catalog.enrich(&mut entry));
    assert_eq!(entry.context_window, 0);
    assert_eq!(entry.max_tokens, 0);
    assert_eq!(entry.input, vec!["text", "image"]);
    assert_eq!(f64::from_bits(entry.cost.expect("cost").input), 5.0);
}

#[test]
fn batch_enrich_covers_sentinel_default_and_explicit_entries() {
    let catalog = sample_db();
    let mut entries = [
        sentinel("gpt-5.6-luna"),
        ModelEntry {
            id: s("gpt-5.6-luna"),
            input: strings(&["text"]),
            context_window: 128000,
            max_tokens: 16384,
            ..Default::default()
        },
        ModelEntry {
            id: s("gpt-5.6-luna"),
            input: strings(&["text"]),
            context_window: 200000,
            max_tokens: 8192,
            ..Default::default()
        },
    ];
    for entry in entries.iter_mut() {
        enrich_entry_with(entry, &catalog);
    }
    assert_eq!(entries[0].context_window, 1050000);
    assert_eq!(entries[0].input, vec!["text", "image"]);
    assert_eq!(entries[1].context_window, 1050000);
    assert_eq!(entries[1].max_tokens, 128000);
    assert_eq!(entries[2].context_window, 200000);
    assert_eq!(entries[2].max_tokens, 8192);
}

#[test]
fn enrich_entry_with_fills_default_window_from_catalog() {
    let catalog = sample_db();
    let mut entry = ModelEntry {
        id: s("gpt-5.6-luna"),
        input: strings(&["text"]),
        context_window: 128000,
        max_tokens: 16384,
        cost: Some(ModelCost { input: 0, output: 0, cache_read: 0, cache_write: 0 }),
        ..Default::default()
    };
    enrich_entry_with(&mut entry, &catalog);
    assert_eq!(entry.context_window, 1050000);
    assert_eq!(entry.max_tokens, 128000);
    assert_eq!(entry.input, vec!["text", "image"]);
    assert!(entry.cost.is_some());
}

#[test]
fn enrich_entry_with_keeps_explicit_non_default_values() {
    let catalog = sample_db();
    let mut entry = ModelEntry {
        id: s("gpt-5.6-luna"),
        input: strings(&["text"]),
        context_window: 200000,
        max_tokens: 8192,
        ..Default::default()
    };
    enrich_entry_with(&mut entry, &catalog);
    assert_eq!(entry.context_window, 200000);
    assert_eq!(entry.max_tokens, 8192);
}

#[test]
fn enrich_preserves_explicit_values() {
    let catalog = sample_db();
    let mut entry = ModelEntry {
        id: s("gpt-5.6-luna"),
        input: strings(&["text"]),
        context_window: 200000,
        max_tokens: 8192,
        name: Some(s("My override")),
        ..Default::default()
    };
    assert!(catalog.enrich(&mut entry));
    assert_eq!(entry.context_window, 200000);
    assert_eq!(entry.max_tokens, 8192);
    assert_eq!(entry.name.as_deref(), Some("My override"));
    assert_eq!(entry.input, vec!["text"]);
}

#[test]
fn is_unparameterized_detects_placeholder_entries() {
    let default_entry = entry("x");
    assert!(is_unparameterized(&default_entry));
    let mut enriched = entry("x");
    enriched.context_window = 1050000;
    assert!(!is_unparameterized(&enriched));
    let mut with_cost = entry("x");
    with_cost.cost = Some(ModelCost { input: 0, output: 0, cache_read: 0, cache_write: 0 });
    assert!(!is_unparameterized(&with_cost));
}

#[test]
fn reasoning_options_build_thinking_level_map() {
    let catalog = reasoning_catalog(
        "opencode",
        "deepseek-v4-flash",
        vec![
            ReasoningOption { kind: Some(s("toggle")), values: None },
            effort_option(&["low", "high", "max"]),
        ],
    );
    let mut entry = ModelEntry { id: s("deepseek-v4-flash"), reasoning: Some(true), ..Default::default() };
    assert!(catalog.enrich(&mut entry));
    let map = entry.thinking_level_map.expect("map filled");
    assert_eq!(level(&map, "minimal"), Some(None));
    assert_eq!(level(&map, "low"), Some(Some(s("low"))));
    assert_eq!(level(&map, "medium"), Some(None));
    assert_eq!(level(&map, "high"), Some(Some(s("high"))));
    assert_eq!(level(&map, "xhigh"), Some(None));
    assert_eq!(level(&map, "max"), Some(Some(s("max"))));
    // toggle present → off stays available via the provider default mapping
    assert!(level(&map, "off").is_none());
}

#[test]
fn effort_without_toggle_hides_off() {
    let catalog = reasoning_catalog("openai", "glm-5.2", vec![effort_option(&["high", "max"])]);
    let mut entry = ModelEntry { id: s("glm-5.2"), reasoning: Some(true), ..Default::default() };
    assert!(catalog.enrich(&mut entry));
    let map = entry.thinking_level_map.expect("map filled");
    assert_eq!(level(&map, "off"), Some(None));
    assert_eq!(level(&map, "low"), Some(None));
    assert_eq!(level(&map, "max"), Some(Some(s("max"))));
}

#[test]
fn no_reasoning_options_leaves_map_unset() {
    let mut m = model("deepseek-chat");
    m.reasoning = Some(false);
    let catalog = catalog_with(vec![provider("openai", vec![m])]);
    let mut entry = ModelEntry { id: s("deepseek-chat"), reasoning: Some(false), ..Default::default() };
    assert!(catalog.enrich(&mut entry));
    assert!(entry.thinking_level_map.is_none());
}

#[test]
fn explicit_thinking_level_map_wins() {
    let catalog = reasoning_catalog("opencode", "deepseek-v4-flash", vec![effort_option(&["low", "high", "max"])]);
    let mut entry = ModelEntry {
        id: s("deepseek-v4-flash"),
        reasoning: Some(true),
        thinking_level_map: Some(ThinkingLevelMap { levels: vec![(s("high"), Some(s("high")))] }),
        ..Default::default()
    };
    assert!(catalog.enrich(&mut entry));
    let map = entry.thinking_level_map.expect("kept");
    assert_eq!(map.levels, vec![(s("high"), Some(s("high")))]);
}

#[test]
fn fill_thinking_level_map_resolves_namespaced_and_bare() {
    let catalog = reasoning_catalog("opencode", "deepseek-v4-flash", vec![effort_option(&["low", "high", "max"])]);
    let mut entry = entry("opencode/deepseek-v4-flash");
    assert!(catalog.fill_thinking_level_map(&mut entry));
    assert_eq!(level(entry.thinking_level_map.as_ref().unwrap(), "max"), Some(Some(s("max"))));

    let mut entry = self::entry("custom-gateway/deepseek-v4-flash");
    assert!(catalog.fill_thinking_level_map(&mut entry));
    assert_eq!(level(entry.thinking_level_map.as_ref().unwrap(), "max"), Some(Some(s("max"))));

    let mut entry = self::entry("no-such-model");
    assert!(!catalog.fill_thinking_level_map(&mut entry));

    let mut entry = ModelEntry {
        id: s("opencode/deepseek-v4-flash"),
        thinking_level_map: Some(ThinkingLevelMap { levels: vec![(s("high"), Some(s("high")))] }),
        ..Default::default()
    };
    assert!(!catalog.fill_thinking_level_map(&mut entry));
}

// ─── Further cases ───────────────────────────────────────

#[test]
fn default_entry_carries_the_default_window() {
    let e = ModelEntry::default();
    assert!(has_default_window(&e));
    assert_eq!(e.input, vec!["text"]);
    assert_eq!((e.context_window, e.max_tokens), (128000, 16384));
}

#[test]
fn lookup_without_catalog_finds_nothing() {
    let catalog = ModelCatalog { providers: None };
    assert!(catalog.lookup("gpt-5.6-luna").is_none());
    let mut e = sentinel("gpt-5.6-luna");
    assert!(!catalog.enrich(&mut e));
    assert_eq!(e.context_window, 0);
}

#[test]
fn lookup_matches_id_field_when_key_differs() {
    let mut m = model("alias-key");
    m.id = Some(s("real-id"));
    m.name = Some(s("by id"));
    let catalog = catalog_with(vec![provider("someone", vec![m])]);
    assert_eq!(catalog.lookup("real-id").unwrap().name.as_deref(), Some("by id"));
    assert_eq!(catalog.lookup("someone/real-id").unwrap().name.as_deref(), Some("by id"));
}

#[test]
fn unknown_providers_keep_database_order() {
    let mut a = model("m");
    a.name = Some(s("first"));
    let mut b = model("m");
    b.name = Some(s("second"));
    let catalog = catalog_with(vec![provider("zeta", vec![a]), provider("alpha", vec![b])]);
    assert_eq!(catalog.lookup("m").unwrap().name.as_deref(), Some("first"));
}

#[test]
fn window_saturates_at_u32_max() {
    let mut m = model("big");
    m.limit = Some(CatalogLimit { context: Some(u64::MAX), output: Some(5_000_000_000) });
    let catalog = catalog_with(vec![provider("p", vec![m])]);
    let mut e = sentinel("big");
    assert!(catalog.enrich(&mut e));
    assert_eq!(e.context_window, u32::MAX);
    assert_eq!(e.max_tokens, u32::MAX);
}

#[test]
fn effort_none_keeps_off_available() {
    let mut m = model("m");
    m.reasoning_options = Some(vec![effort_option(&["none", "high"])]);
    let map = thinking_level_map_from_meta(&m).expect("map");
    assert_eq!(map.levels.len(), 6);
    assert!(level(&map, "off").is_none());
}

#[test]
fn later_effort_option_wins_and_empty_values_mean_no_map() {
    let mut m = model("m");
    m.reasoning_options = Some(vec![effort_option(&["low"]), effort_option(&[])]);
    assert!(thinking_level_map_from_meta(&m).is_none());
    m.reasoning_options = Some(vec![effort_option(&[]), effort_option(&["max"])]);
    let map = thinking_level_map_from_meta(&m).expect("map");
    assert_eq!(level(&map, "max"), Some(Some(s("max"))));
    assert_eq!(level(&map, "low"), Some(None));
}

#[test]
fn batch_enrichment_restores_defaults_for_unknown_models() {
    let catalog = sample_db();
    let mut entries = vec![sentinel("unknown"), entry("unknown")];
    enrich_entries_fresh(&mut entries, &catalog);
    for e in &entries {
        assert_eq!(e.input, vec!["text"]);
        assert_eq!((e.context_window, e.max_tokens), (128000, 16384));
    }
}

#[test]
fn catalog_cache_staleness_and_load_plans() {
    let ttl = CACHE_TTL_SECS as u128 * 1_000_000_000;
    assert!(cache_is_stale(None));
    assert!(!cache_is_stale(Some(0)));
    assert!(!cache_is_stale(Some(ttl)));
    assert!(cache_is_stale(Some(ttl + 1)));

    let regular_fresh = catalog_load_plan(false, false);
    assert!(regular_fresh.cache_first && !regular_fresh.fallback_to_cache);
    assert_eq!(regular_fresh.timeout_secs, 60);
    let regular_stale = catalog_load_plan(false, true);
    assert!(!regular_stale.cache_first && regular_stale.fallback_to_cache);
    let forced = catalog_load_plan(true, false);
    assert!(!forced.cache_first && forced.fallback_to_cache);
    assert_eq!(forced.timeout_secs, 15);
}

#[test]
fn catalog_cache_lives_in_the_config_dir() {
    assert_eq!(cache_path("/home/u/.pi-switch"), "/home/u/.pi-switch/models-cache.json");
    assert_eq!(MODELS_DEV_URL, "https://models.dev/api.json");
}

#[test]
fn enriching_twice_changes_nothing_more() {
    let catalog = sample_db();
    for id in ["gpt-5.6-luna", "vivgrid/gpt-5.6-luna", "gpt-image-2", "nope"] {
        let mut once = sentinel(id);
        catalog.enrich(&mut once);
        let mut twice = once.clone();
        catalog.enrich(&mut twice);
        assert_eq!(format!("{once:?}"), format!("{twice:?}"));
    }
}
