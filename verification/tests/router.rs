use failover_proxy::provider::{
    provider_supports_failover, App, AppNames, AppType, ClaudeDesktopMode, Provider,
};
use failover_proxy::router::{
    app_type_of_key, current_provider_id, make_circuit_key, plan_providers, AppError,
    FailoverPolicy, FailoverStrategy, PermitRequest, ProviderRouter, RoutePlan,
};

const SECOND: u64 = 1_000_000_000;

fn names() -> AppNames {
    AppNames {
        claude: "code".to_string(),
        claude_desktop: "code-desktop".to_string(),
        claude_desktop_title: "Code Desktop".to_string(),
    }
}

fn app(kind: AppType) -> App {
    let name = match kind {
        AppType::Claude => "code",
        AppType::ClaudeDesktop => "code-desktop",
        AppType::Codex => "codex",
        AppType::Other => "pi",
    };
    let local_proxy = matches!(kind, AppType::Claude | AppType::Codex);
    App::named(&names(), name, local_proxy)
}

fn provider(id: &str, name: &str) -> Provider {
    Provider {
        id: id.to_string(),
        name: name.to_string(),
        desktop_official: false,
        desktop_mode: ClaudeDesktopMode::Direct,
        desktop_proxy_valid: false,
        codex_official: false,
    }
}

fn managed_codex_official(id: &str) -> Provider {
    Provider {
        codex_official: true,
        ..provider(id, "OpenAI Official")
    }
}

fn desktop_proxy_provider(id: &str) -> Provider {
    Provider {
        desktop_mode: ClaudeDesktopMode::Proxy,
        desktop_proxy_valid: true,
        ..provider(id, &format!("Desktop {id}"))
    }
}

/// What the store and the settings hold of an application.
struct Store {
    app: AppType,
    failover: bool,
    policy: FailoverPolicy,
    current: Option<&'static str>,
    providers: Vec<Provider>,
    queue: Vec<&'static str>,
}

fn policy(strategy: FailoverStrategy, cooldown: u32, max: u32) -> FailoverPolicy {
    FailoverPolicy {
        strategy,
        rate_limit_cooldown_seconds: cooldown,
        max_rate_limit_cooldown_seconds: max,
    }
}

fn fixed() -> FailoverPolicy {
    policy(FailoverStrategy::FixedPriority, 60, 3600)
}

fn select(
    router: &mut ProviderRouter<u32>,
    store: &Store,
    open: &[&str],
    now: u64,
) -> Result<Vec<Provider>, AppError> {
    let current_id = current_provider_id(store.current.map(str::to_string), None);
    let current = store
        .providers
        .iter()
        .find(|provider| Some(provider.id.as_str()) == store.current)
        .cloned();
    let plan = plan_providers(
        &app(store.app),
        store.failover,
        store.policy.strategy,
        current_id,
        current,
        &store.providers,
        store.queue.iter().map(|id| id.to_string()).collect(),
    );
    let available = match &plan {
        RoutePlan::Candidates(candidates) => candidates
            .iter()
            .map(|provider| !open.contains(&provider.id.as_str()))
            .collect(),
        _ => Vec::new(),
    };
    router
        .select_providers(
            &app(store.app),
            store.policy.strategy,
            &plan,
            &available,
            now,
        )
}

fn ids(providers: &[Provider]) -> Vec<&str> {
    providers
        .iter()
        .map(|provider| provider.id.as_str())
        .collect()
}

#[test]
fn test_failover_disabled_uses_current_provider() {
    let store = Store {
        app: AppType::Claude,
        failover: false,
        policy: fixed(),
        current: Some("a"),
        providers: vec![provider("a", "Provider A"), provider("b", "Provider B")],
        queue: vec!["b"],
    };
    let providers = select(&mut ProviderRouter::new(), &store, &[], 0).unwrap();

    assert_eq!(providers.len(), 1);
    assert_eq!(providers[0].id, "a");
}

#[test]
fn test_failover_enabled_uses_queue_order_ignoring_current() {
    let store = Store {
        app: AppType::Claude,
        failover: true,
        policy: fixed(),
        current: Some("a"),
        providers: vec![provider("a", "Provider A"), provider("b", "Provider B")],
        queue: vec!["b", "a"],
    };
    let providers = select(&mut ProviderRouter::new(), &store, &[], 0).unwrap();

    assert_eq!(providers.len(), 2);
    assert_eq!(providers[0].id, "b");
    assert_eq!(providers[1].id, "a");
}

#[test]
fn claude_desktop_keeps_rate_limited_queue_for_forwarder_waiting() {
    let store = Store {
        app: AppType::ClaudeDesktop,
        failover: true,
        policy: policy(FailoverStrategy::StickyRotation, 30, 300),
        current: Some("desktop-a"),
        providers: vec![
            desktop_proxy_provider("desktop-a"),
            desktop_proxy_provider("desktop-b"),
        ],
        queue: vec!["desktop-a", "desktop-b"],
    };
    let mut router = ProviderRouter::new();
    router.mark_provider_rate_limited("desktop-a", "code-desktop", store.policy, 0);
    router.mark_provider_rate_limited("desktop-b", "code-desktop", store.policy, 0);

    let providers = select(&mut router, &store, &[], 1)
        .expect("Desktop forwarder must receive cooldown candidates");
    assert_eq!(ids(&providers), vec!["desktop-a", "desktop-b"]);
    assert!(providers
        .iter()
        .all(|provider| provider_supports_failover(store.app, provider)));

    router.reset_app_runtime_state("code-desktop");
    let providers = select(&mut router, &store, &["desktop-a"], 1)
        .expect("Desktop forwarder must also receive circuit-open candidates");
    assert!(providers.iter().any(|provider| provider.id == "desktop-a"));
}

#[test]
fn sticky_rotation_starts_from_current_and_skips_rate_limited_provider() {
    let store = Store {
        app: AppType::Claude,
        failover: true,
        policy: policy(FailoverStrategy::StickyRotation, 60, 3600),
        current: Some("b"),
        providers: vec![
            provider("a", "Provider a"),
            provider("b", "Provider b"),
            provider("c", "Provider c"),
        ],
        queue: vec!["a", "b", "c"],
    };
    let mut router = ProviderRouter::new();
    let providers = select(&mut router, &store, &[], 0).unwrap();
    assert_eq!(ids(&providers), vec!["b", "c", "a"]);

    router.mark_provider_rate_limited("b", "code", store.policy, 0);
    let providers = select(&mut router, &store, &[], 1).unwrap();
    assert_eq!(ids(&providers), vec!["c", "a"]);

    router.reset_app_runtime_state("code");
    let providers = select(&mut router, &store, &[], 2).unwrap();
    assert_eq!(ids(&providers), vec!["b", "c", "a"]);
}

#[test]
fn test_failover_enabled_uses_queue_only_even_if_current_not_in_queue() {
    let store = Store {
        app: AppType::Claude,
        failover: true,
        policy: fixed(),
        current: Some("a"),
        providers: vec![provider("a", "Provider A"), provider("b", "Provider B")],
        queue: vec!["b"],
    };
    let providers = select(&mut ProviderRouter::new(), &store, &[], 0).unwrap();

    assert_eq!(providers.len(), 1);
    assert_eq!(providers[0].id, "b");
}

#[test]
fn codex_official_current_stays_single_route_when_failover_is_stale() {
    let store = Store {
        app: AppType::Codex,
        failover: true,
        policy: fixed(),
        current: Some("official-a"),
        providers: vec![
            managed_codex_official("official-a"),
            provider("fallback", "Fallback"),
        ],
        queue: vec!["fallback"],
    };
    let providers = select(&mut ProviderRouter::new(), &store, &[], 0).unwrap();
    assert_eq!(providers.len(), 1);
    assert_eq!(providers[0].id, "official-a");
}

#[test]
fn stale_codex_official_queue_entries_are_not_retry_targets() {
    let store = Store {
        app: AppType::Codex,
        failover: true,
        policy: fixed(),
        current: Some("third-party"),
        providers: vec![
            provider("third-party", "Third Party"),
            managed_codex_official("official-a"),
            provider("fallback", "Fallback"),
        ],
        queue: vec!["official-a", "fallback"],
    };
    let providers = select(&mut ProviderRouter::new(), &store, &[], 0).unwrap();
    assert_eq!(ids(&providers), vec!["fallback"]);
}

#[test]
fn no_provider_is_an_error_of_its_own() {
    let mut store = Store {
        app: AppType::Claude,
        failover: false,
        policy: fixed(),
        current: None,
        providers: vec![provider("a", "Provider A")],
        queue: vec!["a"],
    };
    let mut router = ProviderRouter::new();
    assert_eq!(
        select(&mut router, &store, &[], 0).err(),
        Some(AppError::NoProvidersConfigured)
    );
    store.failover = true;
    assert_eq!(
        select(&mut router, &store, &["a"], 0).err(),
        Some(AppError::AllProvidersCircuitOpen)
    );
    store.queue = vec!["unknown"];
    assert_eq!(
        select(&mut router, &store, &[], 0).err(),
        Some(AppError::NoProvidersConfigured)
    );
}

#[test]
fn cooldowns_end_and_are_not_prolonged() {
    let sticky = policy(FailoverStrategy::StickyRotation, 60, 10);
    let mut router: ProviderRouter<u32> = ProviderRouter::new();
    assert_eq!(
        router.mark_provider_rate_limited("a", "code", sticky, 0),
        10 * SECOND as u128
    );
    assert_eq!(
        router.mark_provider_rate_limited("a", "code", sticky, 4 * SECOND),
        6 * SECOND as u128
    );
    assert!(router.is_provider_rate_limited("a", "code", 10 * SECOND - 1));
    assert!(!router.is_provider_rate_limited("a", "code", 10 * SECOND));
    assert!(!router.is_provider_rate_limited("a", "codex", 0));
    assert_eq!(
        router.mark_provider_rate_limited("b", "code", policy(FailoverStrategy::StickyRotation, 0, 9), 0),
        SECOND as u128
    );
    assert_eq!(router.mark_provider_rate_limited("c", "code", fixed(), 0), 0);
    assert!(!router.is_provider_rate_limited("c", "code", 0));
}

#[test]
fn the_earliest_cooldown_sets_the_retry_delay() {
    let mut router: ProviderRouter<u32> = ProviderRouter::new();
    for (id, seconds) in [("a", 30), ("b", 20), ("c", 5)] {
        router.mark_provider_rate_limited(
            id,
            "code",
            policy(FailoverStrategy::StickyRotation, seconds, 3600),
            0,
        );
    }
    let all = vec![
        provider("a", "A"),
        provider("b", "B"),
        provider("c", "C"),
        provider("d", "D"),
    ];
    assert_eq!(
        router.earliest_rate_limit_retry_delay(&all, "code", 10 * SECOND),
        Some(10 * SECOND as u128)
    );
    assert_eq!(
        router.earliest_rate_limit_retry_delay(&all, "codex", 10 * SECOND),
        None
    );
    assert_eq!(
        router.earliest_rate_limit_retry_delay(&all, "code", 30 * SECOND),
        None
    );
}

#[test]
fn a_reset_spares_the_application_whose_name_only_begins_alike() {
    let sticky = policy(FailoverStrategy::StickyRotation, 60, 60);
    let mut router: ProviderRouter<u32> = ProviderRouter::new();
    for app_type in ["code", "code-desktop"] {
        router.mark_provider_rate_limited("a", app_type, sticky, 0);
        router.get_or_create_circuit_breaker(&make_circuit_key(app_type, "a"), 1);
    }
    router.reset_app_runtime_state("code");
    assert!(!router.is_provider_rate_limited("a", "code", 1));
    assert!(router.is_provider_rate_limited("a", "code-desktop", 1));
    assert_eq!(router.circuit_breaker("code:a"), None);
    assert_eq!(router.circuit_breaker("code-desktop:a"), Some(&1));
    router.reset_provider_breaker("a", "code-desktop");
    assert!(!router.is_provider_rate_limited("a", "code-desktop", 1));
    assert_eq!(router.circuit_breaker("code-desktop:a"), None);
}

#[test]
fn a_circuit_breaker_is_created_once() {
    let mut router: ProviderRouter<u32> = ProviderRouter::new();
    router.get_or_create_circuit_breaker("code:test", 1);
    router.get_or_create_circuit_breaker("code:test", 2);
    router.get_or_create_circuit_breaker("codex:test", 3);
    assert_eq!(router.circuit_breaker("code:test"), Some(&1));
    assert_eq!(
        router.app_breaker_keys("code"),
        vec!["code:test".to_string()]
    );
    assert_eq!(app_type_of_key("code:te:st"), "code");
    assert_eq!(app_type_of_key("code"), "code");
}

#[test]
fn only_counted_results_change_the_health() {
    let router: ProviderRouter<u32> = ProviderRouter::new();
    let reset = Some("reset".to_string());
    assert!(router
        .record_result("a", "code", false, false, reset.clone(), Some(3))
        .is_none());
    let update = router
        .record_result("a", "code", true, false, reset.clone(), Some(3))
        .unwrap();
    assert_eq!(update.provider_id, "a");
    assert_eq!(update.app_type, "code");
    assert!(!update.success);
    assert_eq!(update.error_msg, reset);
    assert_eq!(update.failure_threshold, 3);
    let update = router.record_result("a", "code", true, true, None, None);
    assert_eq!(update.map(|update| update.failure_threshold), Some(5));
}

#[test]
fn a_request_finds_a_circuit_breaker() {
    let mut router: ProviderRouter<u32> = ProviderRouter::new();
    assert_eq!(
        router.begin_provider_request("a", "code", true, 1),
        PermitRequest::Tracking
    );
    assert_eq!(
        router.begin_provider_request("a", "code", false, 2),
        PermitRequest::Gated
    );
    assert_eq!(
        router.allow_provider_request("b", "code", 3),
        PermitRequest::Gated
    );
    assert_eq!(router.circuit_breaker("code:a"), Some(&1));
    assert_eq!(router.circuit_breaker("code:b"), Some(&3));
}

#[test]
fn the_settings_name_the_current_provider_before_the_store() {
    let id = |text: &str| Some(text.to_string());
    assert_eq!(current_provider_id(id("a"), id("b")), id("a"));
    assert_eq!(current_provider_id(None, id("b")), id("b"));
    assert_eq!(current_provider_id(None, None), None);
}

#[test]
fn a_cooling_candidate_is_passed_over_but_not_for_the_desktop_client() {
    let sticky = policy(FailoverStrategy::StickyRotation, 60, 60);
    let mut router: ProviderRouter<u32> = ProviderRouter::new();
    for kind in [AppType::Claude, AppType::ClaudeDesktop] {
        router.mark_provider_rate_limited("a", app(kind).name(), sticky, 0);
    }
    let rotation = FailoverStrategy::StickyRotation;
    assert!(router.passes_over(&app(AppType::Claude), rotation, "a", 1));
    assert!(!router.passes_over(&app(AppType::Claude), rotation, "b", 1));
    assert!(!router.passes_over(&app(AppType::Claude), rotation, "a", 60 * SECOND));
    assert!(!router.passes_over(&app(AppType::Claude), FailoverStrategy::FixedPriority, "a", 1));
    assert!(!router.passes_over(&app(AppType::ClaudeDesktop), rotation, "a", 1));
}
