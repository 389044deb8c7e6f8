use failover_proxy::failover::{
    add_to_failover_queue, get_available_providers_for_failover, get_failover_queue,
    FailoverQueueItem,
};
use failover_proxy::provider::{
    app_kind, require_failover_app, require_failover_provider, App, AppNames, AppType, ClaudeDesktopMode,
    Provider,
};
use failover_proxy::router::FailoverStrategy;
use failover_proxy::toggle::{FailoverToggle, ToggleEvent, ToggleStep};

fn names() -> AppNames {
    AppNames {
        claude: "code".to_string(),
        claude_desktop: "code-desktop".to_string(),
        claude_desktop_title: "Code Desktop".to_string(),
    }
}

/// What the host makes of a name.
fn parsed(name: &str) -> Result<App, String> {
    match name {
        "code" | "codex" => Ok(App::named(&names(), name, true)),
        "code-desktop" | "pi" => Ok(App::named(&names(), name, false)),
        _ => Err(format!("unknown application '{name}'")),
    }
}

fn provider(id: &str) -> Provider {
    Provider {
        id: id.to_string(),
        name: format!("Provider {id}"),
        desktop_official: false,
        desktop_mode: ClaudeDesktopMode::Direct,
        desktop_proxy_valid: false,
        codex_official: false,
    }
}

fn item(id: &str) -> FailoverQueueItem {
    FailoverQueueItem {
        provider_id: id.to_string(),
        provider_name: format!("Provider {id}"),
    }
}

#[test]
fn failover_rejects_apps_without_a_proxy_data_plane() {
    assert!(require_failover_app(parsed("code")).is_ok());
    assert!(require_failover_app(parsed("code-desktop")).is_ok());
    assert!(require_failover_app(parsed("pi")).is_err());
}

#[test]
fn failover_accepts_only_claude_desktop_proxy_providers() {
    let direct = Provider {
        name: "Desktop Direct".to_string(),
        ..provider("desktop-direct")
    };
    let proxy = Provider {
        name: "Desktop Proxy".to_string(),
        desktop_mode: ClaudeDesktopMode::Proxy,
        desktop_proxy_valid: true,
        ..provider("desktop-proxy")
    };

    assert!(
        require_failover_provider(Ok(Some(direct)), AppType::ClaudeDesktop, "desktop-direct").is_err()
    );
    assert!(require_failover_provider(Ok(Some(proxy)), AppType::ClaudeDesktop, "desktop-proxy").is_ok());
}

#[test]
fn failover_rejects_codex_official_account_cards() {
    let official = Provider {
        name: "OpenAI Official".to_string(),
        codex_official: true,
        ..provider("official-a")
    };

    assert!(require_failover_provider(Ok(Some(official)), AppType::Codex, "official-a").is_err());
}

#[test]
fn refusals_say_why() {
    assert_eq!(
        require_failover_app(parsed("nothing")).err(),
        Some("无效的应用类型: unknown application 'nothing'".to_string())
    );
    assert_eq!(
        require_failover_app(parsed("pi")).err(),
        Some("pi 不支持故障转移".to_string())
    );
    let refusal = |found, app, id| require_failover_provider(found, app, id).err();
    assert_eq!(
        refusal(Ok(None), AppType::Claude, "x"),
        Some("供应商不存在: x".to_string())
    );
    assert_eq!(
        refusal(Err("locked".to_string()), AppType::Claude, "x"),
        Some("locked".to_string())
    );
    let official = Provider {
        codex_official: true,
        ..provider("o")
    };
    assert_eq!(
        refusal(Ok(Some(official.clone())), AppType::Codex, "o"),
        Some("Codex Official 账号卡不支持自动故障转移".to_string())
    );
    assert_eq!(refusal(Ok(Some(official)), AppType::Claude, "o"), None);
}

#[test]
fn an_official_desktop_provider_is_never_a_target() {
    let official = Provider {
        desktop_official: true,
        desktop_mode: ClaudeDesktopMode::Proxy,
        desktop_proxy_valid: true,
        ..provider("o")
    };
    assert!(require_failover_provider(Ok(Some(official)), AppType::ClaudeDesktop, "o").is_err());
    let invalid = Provider {
        desktop_mode: ClaudeDesktopMode::Proxy,
        ..provider("i")
    };
    assert!(require_failover_provider(Ok(Some(invalid)), AppType::ClaudeDesktop, "i").is_err());
}

#[test]
fn the_queue_shows_only_retriable_entries() {
    let official = Provider {
        codex_official: true,
        ..provider("b")
    };
    let providers = vec![provider("a"), official.clone(), provider("c")];
    let queue = vec![item("c"), item("b"), item("gone"), item("a")];
    let shown: Vec<String> = get_failover_queue(parsed("codex"), queue, &providers)
        .ok()
        .unwrap()
        .into_iter()
        .map(|item| item.provider_id)
        .collect();
    assert_eq!(shown, vec!["c", "a"]);
    assert!(get_failover_queue(parsed("pi"), Vec::new(), &providers).is_err());

    let available: Vec<String> =
        get_available_providers_for_failover(parsed("codex"), vec![official, provider("d")])
            .ok()
            .unwrap()
            .into_iter()
            .map(|provider| provider.id)
            .collect();
    assert_eq!(available, vec!["d"]);
    assert!(get_available_providers_for_failover(parsed("pi"), Vec::new()).is_err());
}

#[test]
fn only_retriable_providers_are_added() {
    assert_eq!(
        add_to_failover_queue(parsed("code"), "a", Ok(Some(provider("a")))),
        Ok(())
    );
    assert_eq!(
        add_to_failover_queue(parsed("code"), "a", Ok(None)),
        Err("供应商不存在: a".to_string())
    );
    assert_eq!(
        add_to_failover_queue(parsed("pi"), "a", Ok(None)),
        Err("pi 不支持故障转移".to_string())
    );
}

fn answer(toggle: FailoverToggle, events: Vec<ToggleEvent>) -> FailoverToggle {
    events
        .into_iter()
        .fold(toggle, |toggle, event| toggle.advance(event))
}

fn error_of(toggle: FailoverToggle) -> String {
    match toggle.step {
        ToggleStep::Done(Err(message)) => message,
        _ => panic!("not refused"),
    }
}

fn toggled(app_type: &str, enabled: bool) -> FailoverToggle {
    match FailoverToggle::set_auto_failover_enabled(parsed(app_type), enabled) {
        Ok(toggle) => toggle,
        Err(message) => panic!("{message}"),
    }
}

fn until_current(
    app_type: &str,
    strategy: FailoverStrategy,
    providers: Vec<Provider>,
    queue: Vec<&str>,
) -> FailoverToggle {
    answer(
        toggled(app_type, true),
        vec![
            ToggleEvent::Config(Ok(true)),
            ToggleEvent::Running(true),
            ToggleEvent::Policy(Ok(strategy)),
            ToggleEvent::Providers(Ok(providers)),
            ToggleEvent::Queue(Ok(queue.into_iter().map(str::to_string).collect())),
        ],
    )
}

#[test]
fn switching_on_needs_a_proxy() {
    let toggle = toggled("code", true);
    assert_eq!(
        error_of(toggle.advance(ToggleEvent::Config(Ok(false)))),
        "需要先启用该应用的代理接管，再开启故障转移"
    );
    let toggle = toggled("code-desktop", true);
    let toggle = toggle.advance(ToggleEvent::Config(Ok(false)));
    assert!(matches!(toggle.step, ToggleStep::CheckRunning));
    assert_eq!(
        error_of(toggle.advance(ToggleEvent::Running(false))),
        "需要先启动本地路由服务，再开启 Code Desktop 故障转移"
    );
    assert_eq!(
        FailoverToggle::set_auto_failover_enabled(parsed("pi"), true).err(),
        Some("pi 不支持故障转移".to_string())
    );
}

#[test]
fn switching_on_goes_to_the_head_of_the_queue_first() {
    let toggle = until_current(
        "code",
        FailoverStrategy::FixedPriority,
        vec![provider("a"), provider("b")],
        vec!["gone", "b", "a"],
    );
    let toggle = toggle.advance(ToggleEvent::Current(Ok(Some("a".to_string()))));
    match &toggle.step {
        ToggleStep::Switch { target, auto_added } => {
            assert_eq!(target, "b");
            assert_eq!(*auto_added, None);
        }
        _ => panic!("no switch"),
    }
    let toggle = toggle.advance(ToggleEvent::Switched(Ok(())));
    assert!(matches!(&toggle.step, ToggleStep::Write { activated: Some(id) } if id == "b"));
    let toggle = toggle.advance(ToggleEvent::Written(Ok(())));
    assert!(matches!(&toggle.step, ToggleStep::Emit { target } if target == "b"));
    let toggle = answer(toggle, vec![ToggleEvent::Emitted, ToggleEvent::TrayRefreshed]);
    assert!(matches!(toggle.step, ToggleStep::Done(Ok(()))));
}

#[test]
fn an_empty_queue_gets_the_current_provider_and_a_failed_switch_takes_it_back() {
    let toggle = until_current(
        "code",
        FailoverStrategy::FixedPriority,
        vec![provider("a")],
        vec![],
    );
    let toggle = answer(
        toggle,
        vec![
            ToggleEvent::Current(Ok(Some("a".to_string()))),
            ToggleEvent::Found(Ok(Some(provider("a")))),
            ToggleEvent::Enqueued(Ok(())),
            ToggleEvent::Queue(Ok(vec!["a".to_string()])),
            ToggleEvent::Switched(Err("no".to_string())),
        ],
    );
    match &toggle.step {
        ToggleStep::Dequeue { provider, error } => {
            assert_eq!(provider, "a");
            assert_eq!(error, "no");
        }
        _ => panic!("not taken back"),
    }
    assert_eq!(error_of(toggle.advance(ToggleEvent::Dequeued)), "no");
}

#[test]
fn an_empty_queue_without_a_current_provider_is_refused() {
    let toggle = until_current("code", FailoverStrategy::FixedPriority, vec![], vec![]);
    assert_eq!(
        error_of(toggle.advance(ToggleEvent::Current(Ok(None)))),
        "故障转移队列为空，且未设置当前供应商，无法开启故障转移"
    );
    let toggle = until_current("code", FailoverStrategy::StickyRotation, vec![], vec![]);
    assert_eq!(
        error_of(toggle.advance(ToggleEvent::Current(Ok(None)))),
        "未设置当前供应商，无法开启当前优先轮转"
    );
    let toggle = until_current(
        "code",
        FailoverStrategy::FixedPriority,
        vec![provider("a")],
        vec![],
    );
    let toggle = answer(
        toggle,
        vec![
            ToggleEvent::Current(Ok(Some("a".to_string()))),
            ToggleEvent::Found(Ok(Some(provider("a")))),
            ToggleEvent::Enqueued(Ok(())),
            ToggleEvent::Queue(Ok(vec![])),
        ],
    );
    assert_eq!(error_of(toggle), "故障转移队列为空，无法开启故障转移");
}

#[test]
fn the_rotation_keeps_the_current_provider() {
    let toggle = until_current(
        "code",
        FailoverStrategy::StickyRotation,
        vec![provider("a"), provider("b")],
        vec!["a", "b"],
    );
    let toggle = answer(
        toggle,
        vec![
            ToggleEvent::Current(Ok(Some("b".to_string()))),
            ToggleEvent::Found(Ok(Some(provider("b")))),
        ],
    );
    assert!(matches!(toggle.step, ToggleStep::Write { activated: None }));
    let toggle = toggle.advance(ToggleEvent::Written(Ok(())));
    assert!(matches!(toggle.step, ToggleStep::RefreshTray));
}

#[test]
fn switching_off_leaves_the_queue_alone() {
    let toggle = answer(
        toggled("code", false),
        vec![
            ToggleEvent::Config(Ok(false)),
            ToggleEvent::Policy(Ok(FailoverStrategy::FixedPriority)),
        ],
    );
    assert!(!toggle.enabled);
    assert!(matches!(toggle.step, ToggleStep::Write { activated: None }));
}

#[test]
fn an_answer_to_another_question_changes_nothing() {
    let toggle = toggled("code", true);
    let toggle = toggle.advance(ToggleEvent::TrayRefreshed);
    assert!(matches!(toggle.step, ToggleStep::ReadConfig));
    assert_eq!(
        error_of(toggle.advance(ToggleEvent::Config(Err("locked".to_string())))),
        "locked"
    );
}

#[test]
fn an_application_that_the_proxy_takes_over_can_fail_over() {
    let gemini = App::named(&names(), "gemini", true);
    assert!(require_failover_app(Ok(gemini)).is_ok());
}

#[test]
fn the_kind_of_an_application_goes_by_its_name() {
    assert_eq!(app_kind(&names(), "code-desktop"), AppType::ClaudeDesktop);
    assert_eq!(app_kind(&names(), "code"), AppType::Claude);
    assert_eq!(app_kind(&names(), "codex"), AppType::Codex);
    assert_eq!(app_kind(&names(), "pi"), AppType::Other);
    let desktop = App::named(&names(), "code-desktop", false);
    assert_eq!(desktop.kind(), AppType::ClaudeDesktop);
    assert_eq!(desktop.name(), "code-desktop");
    assert_eq!(desktop.title(), "Code Desktop");
    assert!(!desktop.supports_local_proxy());
    assert_eq!(App::named(&names(), "pi", true).title(), "pi");
}
