use failover_proxy::provider::{App, AppNames, AppType};
use failover_proxy::switch::{
    switched_event, FailoverSwitchManager, SwitchEvent, SwitchExpectation, SwitchRun, SwitchStep,
};

fn names() -> AppNames {
    AppNames {
        claude: "code".to_string(),
        claude_desktop: "code-desktop".to_string(),
        claude_desktop_title: "Code Desktop".to_string(),
    }
}

fn app(kind: AppType) -> App {
    let name = match kind {
        AppType::Claude => "code",
        AppType::ClaudeDesktop => "code-desktop",
        AppType::Codex => "codex",
        AppType::Other => "pi",
    };
    let local_proxy = matches!(kind, AppType::Claude | AppType::Codex);
    App::named(&names(), name, local_proxy)
}

fn answer(run: SwitchRun, events: Vec<SwitchEvent>) -> SwitchRun {
    events
        .into_iter()
        .fold(run, |run, event| run.advance(event))
}

fn started(kind: AppType, expectation: SwitchExpectation) -> SwitchRun {
    answer(
        SwitchRun::do_switch(&app(kind), "p", expectation),
        vec![
            SwitchEvent::Config(Some(true)),
            SwitchEvent::Host(true),
            SwitchEvent::State(true),
        ],
    )
}

fn result_of(run: SwitchRun) -> Result<bool, String> {
    match run.step {
        SwitchStep::Done(result) => result,
        _ => panic!("not done"),
    }
}

#[test]
fn one_switch_of_an_application_at_a_time() {
    let mut manager = FailoverSwitchManager::new();
    assert!(manager.try_switch(&app(AppType::Claude), "a").is_some());
    assert!(manager.try_switch(&app(AppType::Claude), "b").is_none());
    assert!(manager
        .try_switch_if_current(&app(AppType::Codex), Some("x".to_string()), "b")
        .is_some());
    manager.end("code");
    assert!(manager.begin("code"));
    assert!(!manager.begin("codex"));
}

#[test]
fn an_application_that_is_not_taken_over_is_not_switched() {
    let run = SwitchRun::do_switch(&app(AppType::Claude), "p", SwitchExpectation::Unconditional);
    assert_eq!(
        result_of(run.advance(SwitchEvent::Config(Some(false)))),
        Ok(false)
    );
    let run = SwitchRun::do_switch(&app(AppType::Claude), "p", SwitchExpectation::Unconditional);
    assert_eq!(result_of(run.advance(SwitchEvent::Config(None))), Ok(false));
    let run = SwitchRun::do_switch(&app(AppType::ClaudeDesktop), "p", SwitchExpectation::Unconditional);
    let run = run.advance(SwitchEvent::Config(Some(false)));
    assert!(matches!(run.step, SwitchStep::FindHost));
    assert_eq!(result_of(run.advance(SwitchEvent::Host(false))), Ok(false));
}

#[test]
fn a_proxied_application_is_switched_in_place() {
    let run = started(AppType::Claude, SwitchExpectation::Unconditional);
    assert!(matches!(run.step, SwitchStep::HotSwitch));
    let run = answer(
        run,
        vec![
            SwitchEvent::Switched(Ok(true)),
            SwitchEvent::TrayRefreshed,
            SwitchEvent::Emitted,
        ],
    );
    assert_eq!(result_of(run), Ok(true));
    let run = started(AppType::Claude, SwitchExpectation::Unconditional);
    assert_eq!(
        result_of(run.advance(SwitchEvent::Switched(Ok(false)))),
        Ok(false)
    );
    let run = started(AppType::Claude, SwitchExpectation::Unconditional);
    assert_eq!(
        result_of(run.advance(SwitchEvent::Switched(Err("no".to_string())))),
        Err("no".to_string())
    );
}

#[test]
fn claude_desktop_is_not_switched_to_its_own_provider() {
    let run = started(AppType::ClaudeDesktop, SwitchExpectation::Unconditional);
    assert!(matches!(run.step, SwitchStep::ReadCurrent));
    assert_eq!(
        result_of(run.advance(SwitchEvent::Current(Ok(Some("p".to_string()))))),
        Ok(false)
    );
    let run = started(AppType::ClaudeDesktop, SwitchExpectation::Unconditional);
    let run = run.advance(SwitchEvent::Current(Ok(Some("q".to_string()))));
    assert!(matches!(run.step, SwitchStep::SwitchDesktop));
    let run = run.advance(SwitchEvent::Switched(Ok(false)));
    assert!(matches!(run.step, SwitchStep::RefreshTray));
    let run = started(AppType::ClaudeDesktop, SwitchExpectation::Unconditional);
    assert_eq!(
        result_of(run.advance(SwitchEvent::Current(Err("locked".to_string())))),
        Err("locked".to_string())
    );
}

#[test]
fn claude_desktop_can_be_switched_under_a_condition() {
    let run = started(
        AppType::ClaudeDesktop,
        SwitchExpectation::IfCurrent(Some("old".to_string())),
    );
    match &run.step {
        SwitchStep::SwitchIfCurrent { expected } => assert_eq!(expected.as_deref(), Some("old")),
        _ => panic!("no condition"),
    }
    assert_eq!(
        result_of(run.advance(SwitchEvent::Switched(Ok(false)))),
        Ok(false)
    );
}

#[test]
fn without_state_the_interface_is_told_but_nothing_is_switched() {
    let run = answer(
        SwitchRun::do_switch(&app(AppType::Claude), "p", SwitchExpectation::Unconditional),
        vec![
            SwitchEvent::Config(Some(true)),
            SwitchEvent::Host(true),
            SwitchEvent::State(false),
        ],
    );
    assert!(matches!(run.step, SwitchStep::Emit { switched: false }));
    assert_eq!(result_of(run.advance(SwitchEvent::Emitted)), Ok(false));
}

#[test]
fn the_interface_learns_what_was_switched() {
    let event = switched_event("code", "p\"1", "failover");
    assert_eq!(event.get("appType").and_then(|v| v.as_str()), Some("code"));
    assert_eq!(event.get("providerId").and_then(|v| v.as_str()), Some("p\"1"));
    assert_eq!(event.get("source").and_then(|v| v.as_str()), Some("failover"));
    assert_eq!(event.as_object().map(|o| o.len()), Some(3));
}

#[test]
fn a_switch_that_has_ended_makes_room() {
    let mut manager = FailoverSwitchManager::new();
    assert!(manager.begin("code"));
    assert!(manager.begin("codex"));
    manager.end("code");
    assert!(manager.begin("code"));
    assert!(!manager.begin("codex"));
}

#[test]
fn a_switch_frees_its_application_when_it_is_done() {
    let mut manager = FailoverSwitchManager::new();
    let run = manager.try_switch(&app(AppType::Claude), "p").unwrap();
    let run = match manager.settle(run) {
        Ok(_) => panic!("not done"),
        Err(run) => run,
    };
    assert!(!manager.begin("code"));
    let run = run.advance(SwitchEvent::Config(Some(false)));
    assert_eq!(manager.settle(run).ok(), Some(Ok(false)));
    assert!(manager.begin("code"));
}
