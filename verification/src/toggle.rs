//! Switching failover on and off for an application.
//!
//! The store, the proxy service and the user interface answer one question after the other;
//! each answer decides the next question. Failover is written down as switched on only once
//! requests go to the head of the queue, so that it is never on with a target that cannot be
//! switched to.

use crate::provider::{
    app_refusal, found_view, is_retry_target, parsed_view, provider_refusal, provider_views,
    require_failover_app, require_failover_provider, retry_target, App, AppType, AppView, Provider,
    ProviderView,
};
use crate::router::FailoverStrategy;
use crate::text::{concat3, str_eq};
use vstd::prelude::*;
use vstd::string::*;

verus! {

/// What is to be found out or done next.
pub enum ToggleStep {
    /// Read whether the proxy has taken the application over.
    ReadConfig,
    /// Ask whether the proxy is running.
    CheckRunning,
    ReadPolicy,
    ReadProviders { strategy: FailoverStrategy },
    ReadQueue { strategy: FailoverStrategy, providers: Vec<Provider> },
    /// Read which provider is current.
    ReadCurrent { strategy: FailoverStrategy, providers: Vec<Provider>, queue: Vec<String> },
    /// Look the current provider up.
    LookUp {
        strategy: FailoverStrategy,
        providers: Vec<Provider>,
        queue: Vec<String>,
        current: String,
    },
    /// Add the current provider to the queue.
    Enqueue { strategy: FailoverStrategy, providers: Vec<Provider>, current: String },
    /// Read the queue again.
    RereadQueue { providers: Vec<Provider>, current: String },
    /// Switch to the head of the queue. `auto_added` is the provider that was added for it.
    Switch { target: String, auto_added: Option<String> },
    /// Take a provider out of the queue again, and report the error.
    Dequeue { provider: String, error: String },
    /// Write down whether failover is on.
    Write { activated: Option<String> },
    /// Tell the user interface which provider is current.
    Emit { target: String },
    RefreshTray,
    Done(Result<(), String>),
}

/// What is to be found out or done next.
pub enum Step {
    ReadConfig,
    CheckRunning,
    ReadPolicy,
    ReadProviders(FailoverStrategy),
    ReadQueue(FailoverStrategy, Seq<ProviderView>),
    ReadCurrent(FailoverStrategy, Seq<ProviderView>, Seq<Seq<char>>),
    LookUp(FailoverStrategy, Seq<ProviderView>, Seq<Seq<char>>, Seq<char>),
    Enqueue(FailoverStrategy, Seq<ProviderView>, Seq<char>),
    RereadQueue(Seq<ProviderView>, Seq<char>),
    Switch(Seq<char>, Option<Seq<char>>),
    Dequeue(Seq<char>, Seq<char>),
    Write(Option<Seq<char>>),
    Emit(Seq<char>),
    RefreshTray,
    Done(Result<(), Seq<char>>),
}

impl View for ToggleStep {
    type V = Step;

    open spec fn view(&self) -> Step {
        match self {
            ToggleStep::ReadConfig => Step::ReadConfig,
            ToggleStep::CheckRunning => Step::CheckRunning,
            ToggleStep::ReadPolicy => Step::ReadPolicy,
            ToggleStep::ReadProviders { strategy } => Step::ReadProviders(*strategy),
            ToggleStep::ReadQueue { strategy, providers } => Step::ReadQueue(
                *strategy,
                provider_views(providers@),
            ),
            ToggleStep::ReadCurrent { strategy, providers, queue } => Step::ReadCurrent(
                *strategy,
                provider_views(providers@),
                queue.deep_view(),
            ),
            ToggleStep::LookUp { strategy, providers, queue, current } => Step::LookUp(
                *strategy,
                provider_views(providers@),
                queue.deep_view(),
                current@,
            ),
            ToggleStep::Enqueue { strategy, providers, current } => Step::Enqueue(
                *strategy,
                provider_views(providers@),
                current@,
            ),
            ToggleStep::RereadQueue { providers, current } => Step::RereadQueue(
                provider_views(providers@),
                current@,
            ),
            ToggleStep::Switch { target, auto_added } => Step::Switch(
                target@,
                auto_added.deep_view(),
            ),
            ToggleStep::Dequeue { provider, error } => Step::Dequeue(provider@, error@),
            ToggleStep::Write { activated } => Step::Write(activated.deep_view()),
            ToggleStep::Emit { target } => Step::Emit(target@),
            ToggleStep::RefreshTray => Step::RefreshTray,
            ToggleStep::Done(result) => Step::Done(
                match result {
                    Ok(()) => Ok(()),
                    Err(message) => Err(message@),
                },
            ),
        }
    }
}

/// An answer.
pub enum ToggleEvent {
    /// Whether the proxy has taken the application over.
    Config(Result<bool, String>),
    /// Whether the proxy is running.
    Running(bool),
    Policy(Result<FailoverStrategy, String>),
    Providers(Result<Vec<Provider>, String>),
    /// The identifiers in the queue.
    Queue(Result<Vec<String>, String>),
    /// The current provider.
    Current(Result<Option<String>, String>),
    /// What the store says of a provider.
    Found(Result<Option<Provider>, String>),
    Enqueued(Result<(), String>),
    Switched(Result<(), String>),
    Dequeued,
    Written(Result<(), String>),
    Emitted,
    TrayRefreshed,
}

/// An answer.
pub enum Answer {
    Config(Result<bool, Seq<char>>),
    Running(bool),
    Policy(Result<FailoverStrategy, Seq<char>>),
    Providers(Result<Seq<ProviderView>, Seq<char>>),
    Queue(Result<Seq<Seq<char>>, Seq<char>>),
    Current(Result<Option<Seq<char>>, Seq<char>>),
    Found(Result<Option<ProviderView>, Seq<char>>),
    Enqueued(Result<(), Seq<char>>),
    Switched(Result<(), Seq<char>>),
    Dequeued,
    Written(Result<(), Seq<char>>),
    Emitted,
    TrayRefreshed,
}

pub open spec fn done_view(result: Result<(), String>) -> Result<(), Seq<char>> {
    match result {
        Ok(()) => Ok(()),
        Err(message) => Err(message@),
    }
}

impl View for ToggleEvent {
    type V = Answer;

    open spec fn view(&self) -> Answer {
        match self {
            ToggleEvent::Config(result) => Answer::Config(
                match result {
                    Ok(enabled) => Ok(*enabled),
                    Err(message) => Err(message@),
                },
            ),
            ToggleEvent::Running(running) => Answer::Running(*running),
            ToggleEvent::Policy(result) => Answer::Policy(
                match result {
                    Ok(strategy) => Ok(*strategy),
                    Err(message) => Err(message@),
                },
            ),
            ToggleEvent::Providers(result) => Answer::Providers(
                match result {
                    Ok(providers) => Ok(provider_views(providers@)),
                    Err(message) => Err(message@),
                },
            ),
            ToggleEvent::Queue(result) => Answer::Queue(
                match result {
                    Ok(ids) => Ok(ids.deep_view()),
                    Err(message) => Err(message@),
                },
            ),
            ToggleEvent::Current(result) => Answer::Current(
                match result {
                    Ok(id) => Ok(id.deep_view()),
                    Err(message) => Err(message@),
                },
            ),
            ToggleEvent::Found(found) => Answer::Found(found_view(*found)),
            ToggleEvent::Enqueued(result) => Answer::Enqueued(done_view(*result)),
            ToggleEvent::Switched(result) => Answer::Switched(done_view(*result)),
            ToggleEvent::Dequeued => Answer::Dequeued,
            ToggleEvent::Written(result) => Answer::Written(done_view(*result)),
            ToggleEvent::Emitted => Answer::Emitted,
            ToggleEvent::TrayRefreshed => Answer::TrayRefreshed,
        }
    }
}

/// The identifiers in a queue whose providers may be retried with, in order.
pub open spec fn retriable(
    app: AppType,
    providers: Seq<ProviderView>,
    ids: Seq<Seq<char>>,
) -> Seq<Seq<char>>
    decreases ids.len(),
{
    if ids.len() == 0 {
        Seq::empty()
    } else if retry_target(app, providers, ids.last()) {
        retriable(app, providers, ids.drop_last()).push(ids.last())
    } else {
        retriable(app, providers, ids.drop_last())
    }
}

pub open spec fn failed(message: Seq<char>) -> Step {
    Step::Done(Err(message))
}

/// After it is known whether the proxy has taken the application over.
pub open spec fn after_config(app: AppType, enabled: bool, taken_over: bool) -> Step {
    if enabled && !taken_over && !(app is ClaudeDesktop) {
        failed("需要先启用该应用的代理接管，再开启故障转移"@)
    } else if enabled && app is ClaudeDesktop {
        Step::CheckRunning
    } else {
        Step::ReadPolicy
    }
}

/// After the current provider is known. The rotation needs one in the queue; the fixed order
/// needs one only where the queue is empty.
pub open spec fn after_current(
    strategy: FailoverStrategy,
    providers: Seq<ProviderView>,
    queue: Seq<Seq<char>>,
    current: Option<Seq<char>>,
) -> Step {
    match current {
        _ if strategy is FixedPriority && queue.len() > 0 => Step::Switch(queue[0], None),
        Some(id) => Step::LookUp(strategy, providers, queue, id),
        None => if strategy is StickyRotation {
            failed("未设置当前供应商，无法开启当前优先轮转"@)
        } else {
            failed("故障转移队列为空，且未设置当前供应商，无法开启故障转移"@)
        },
    }
}

/// After the current provider was looked up.
pub open spec fn after_lookup(
    app: AppType,
    strategy: FailoverStrategy,
    providers: Seq<ProviderView>,
    queue: Seq<Seq<char>>,
    current: Seq<char>,
    found: Result<Option<ProviderView>, Seq<char>>,
) -> Step {
    match provider_refusal(found, app, current) {
        Some(message) => failed(message),
        None => if strategy is StickyRotation && queue.contains(current) {
            Step::Write(None)
        } else {
            Step::Enqueue(strategy, providers, current)
        },
    }
}

/// The step after an answer. An answer to another question changes nothing.
pub open spec fn next_step(app: AppView, enabled: bool, step: Step, answer: Answer) -> Step {
    match (step, answer) {
        (Step::ReadConfig, Answer::Config(Ok(taken_over))) => after_config(
            app.kind,
            enabled,
            taken_over,
        ),
        (Step::ReadConfig, Answer::Config(Err(message))) => failed(message),
        (Step::CheckRunning, Answer::Running(running)) => if running {
            Step::ReadPolicy
        } else {
            failed("需要先启动本地路由服务，再开启 "@ + app.title + " 故障转移"@)
        },
        (Step::ReadPolicy, Answer::Policy(Ok(strategy))) => if enabled {
            Step::ReadProviders(strategy)
        } else {
            Step::Write(None)
        },
        (Step::ReadPolicy, Answer::Policy(Err(message))) => failed(message),
        (Step::ReadProviders(strategy), Answer::Providers(Ok(providers))) => Step::ReadQueue(
            strategy,
            providers,
        ),
        (Step::ReadProviders(_), Answer::Providers(Err(message))) => failed(message),
        (Step::ReadQueue(strategy, providers), Answer::Queue(Ok(ids))) => Step::ReadCurrent(
            strategy,
            providers,
            retriable(app.kind, providers, ids),
        ),
        (Step::ReadQueue(_, _), Answer::Queue(Err(message))) => failed(message),
        (Step::ReadCurrent(strategy, providers, queue), Answer::Current(Ok(current))) =>
            after_current(strategy, providers, queue, current),
        (Step::ReadCurrent(_, _, _), Answer::Current(Err(message))) => failed(message),
        (Step::LookUp(strategy, providers, queue, current), Answer::Found(found)) => after_lookup(
            app.kind,
            strategy,
            providers,
            queue,
            current,
            found,
        ),
        (Step::Enqueue(strategy, providers, current), Answer::Enqueued(Ok(()))) =>
            if strategy is StickyRotation {
                Step::Write(None)
            } else {
                Step::RereadQueue(providers, current)
            },
        (Step::Enqueue(_, _, _), Answer::Enqueued(Err(message))) => failed(message),
        (Step::RereadQueue(providers, current), Answer::Queue(Ok(ids))) => {
            let queue = retriable(app.kind, providers, ids);
            if queue.len() > 0 {
                Step::Switch(queue[0], Some(current))
            } else {
                failed("故障转移队列为空，无法开启故障转移"@)
            }
        },
        (Step::RereadQueue(_, _), Answer::Queue(Err(message))) => failed(message),
        (Step::Switch(target, _), Answer::Switched(Ok(()))) => Step::Write(Some(target)),
        (Step::Switch(_, auto_added), Answer::Switched(Err(message))) => match auto_added {
            Some(provider) => Step::Dequeue(provider, message),
            None => failed(message),
        },
        (Step::Dequeue(_, error), Answer::Dequeued) => failed(error),
        (Step::Write(Some(target)), Answer::Written(Ok(()))) => Step::Emit(target),
        (Step::Write(None), Answer::Written(Ok(()))) => Step::RefreshTray,
        (Step::Write(_), Answer::Written(Err(message))) => failed(message),
        (Step::Emit(_), Answer::Emitted) => Step::RefreshTray,
        (Step::RefreshTray, Answer::TrayRefreshed) => Step::Done(Ok(())),
        (step, _) => step,
    }
}

/// The switching of failover for one application.
pub struct FailoverToggle {
    pub app: App,
    pub enabled: bool,
    pub step: ToggleStep,
}

/// The identifiers in a queue whose providers may be retried with, in order.
fn keep_retriable(app: AppType, providers: &Vec<Provider>, ids: &Vec<String>) -> (kept: Vec<
    String,
>)
    ensures
        kept.deep_view() == retriable(app, provider_views(providers@), ids.deep_view()),
{
    let ghost all = ids.deep_view();
    let mut kept: Vec<String> = Vec::new();
    let mut i: usize = 0;
    while i < ids.len()
        invariant
            i <= ids.len(),
            all == ids.deep_view(),
            kept.deep_view() == retriable(
                app,
                provider_views(providers@),
                all.take(i as int),
            ),
        decreases ids.len() - i,
    {
        assert(all.take(i + 1).drop_last() =~= all.take(i as int));
        assert(all.take(i + 1).last() == ids@[i as int]@);
        if is_retry_target(app, providers, ids[i].as_str()) {
            let ghost before = kept.deep_view();
            kept.push(ids[i].clone());
            assert(kept.deep_view() =~= before.push(ids@[i as int]@));
        }
        i += 1;
    }
    assert(all.take(all.len() as int) =~= all);
    kept
}

/// Whether an identifier is in a list.
fn holds(ids: &Vec<String>, id: &str) -> (res: bool)
    ensures
        res == ids.deep_view().contains(id@),
{
    let ghost all = ids.deep_view();
    let mut i: usize = 0;
    while i < ids.len()
        invariant
            i <= ids.len(),
            all == ids.deep_view(),
            forall|k: int| 0 <= k < i ==> all[k] != id@,
        decreases ids.len() - i,
    {
        assert(all[i as int] == ids@[i as int]@);
        if str_eq(ids[i].as_str(), id) {
            return true;
        }
        i += 1;
    }
    false
}

fn fail(message: String) -> (step: ToggleStep)
    ensures
        step@ == failed(message@),
{
    ToggleStep::Done(Err(message))
}

impl FailoverToggle {
    /// Begins to switch failover on or off. An application that cannot fail over is refused.
    pub fn set_auto_failover_enabled(parsed: Result<App, String>, enabled: bool) -> (res: Result<
        FailoverToggle,
        String,
    >)
        ensures
            match res {
                Ok(toggle) => app_refusal(parsed_view(parsed)) is None && parsed_view(parsed)
                    == Ok::<AppView, Seq<char>>(toggle.app@) && toggle.enabled == enabled
                    && toggle.step@ == Step::ReadConfig,
                Err(message) => app_refusal(parsed_view(parsed)) == Some(message@),
            },
    {
        match require_failover_app(parsed) {
            Ok(app) => Ok(FailoverToggle { app, enabled, step: ToggleStep::ReadConfig }),
            Err(message) => Err(message),
        }
    }

    /// Takes the answer to the step that was to be done.
    pub fn advance(self, event: ToggleEvent) -> (next: FailoverToggle)
        ensures
            next.app@ == self.app@,
            next.enabled == self.enabled,
            next.step@ == next_step(self.app@, self.enabled, self.step@, event@),
    {
        let FailoverToggle { app, enabled, step } = self;
        let kind = app.kind();
        let is_desktop = kind == AppType::ClaudeDesktop;
        let step = match (step, event) {
            (ToggleStep::ReadConfig, ToggleEvent::Config(Ok(taken_over))) => {
                if enabled && !taken_over && !is_desktop {
                    fail("需要先启用该应用的代理接管，再开启故障转移".to_owned())
                } else if enabled && is_desktop {
                    ToggleStep::CheckRunning
                } else {
                    ToggleStep::ReadPolicy
                }
            },
            (ToggleStep::ReadConfig, ToggleEvent::Config(Err(message))) => fail(message),
            (ToggleStep::CheckRunning, ToggleEvent::Running(running)) => {
                if running {
                    ToggleStep::ReadPolicy
                } else {
                    fail(
                        concat3(
                            "需要先启动本地路由服务，再开启 ",
                            app.title(),
                            " 故障转移",
                        ),
                    )
                }
            },
            (ToggleStep::ReadPolicy, ToggleEvent::Policy(Ok(strategy))) => {
                if enabled {
                    ToggleStep::ReadProviders { strategy }
                } else {
                    ToggleStep::Write { activated: None }
                }
            },
            (ToggleStep::ReadPolicy, ToggleEvent::Policy(Err(message))) => fail(message),
            (ToggleStep::ReadProviders { strategy }, ToggleEvent::Providers(Ok(providers))) => {
                ToggleStep::ReadQueue { strategy, providers }
            },
            (ToggleStep::ReadProviders { strategy: _ }, ToggleEvent::Providers(Err(message))) => {
                fail(message)
            },
            (ToggleStep::ReadQueue { strategy, providers }, ToggleEvent::Queue(Ok(ids))) => {
                let queue = keep_retriable(kind, &providers, &ids);
                ToggleStep::ReadCurrent { strategy, providers, queue }
            },
            (
                ToggleStep::ReadQueue { strategy: _, providers: _ },
                ToggleEvent::Queue(Err(message)),
            ) => fail(message),
            (
                ToggleStep::ReadCurrent { strategy, providers, queue },
                ToggleEvent::Current(Ok(current)),
            ) => {
                if strategy == FailoverStrategy::FixedPriority && queue.len() > 0 {
                    assert(queue.deep_view()[0] == queue@[0]@);
                    ToggleStep::Switch { target: queue[0].clone(), auto_added: None }
                } else {
                    match current {
                        Some(current) => ToggleStep::LookUp {
                            strategy,
                            providers,
                            queue,
                            current,
                        },
                        None => {
                            if strategy == FailoverStrategy::StickyRotation {
                                fail("未设置当前供应商，无法开启当前优先轮转".to_owned())
                            } else {
                                fail(
                                    "故障转移队列为空，且未设置当前供应商，无法开启故障转移".to_owned(),
                                )
                            }
                        },
                    }
                }
            },
            (
                ToggleStep::ReadCurrent { strategy: _, providers: _, queue: _ },
                ToggleEvent::Current(Err(message)),
            ) => fail(message),
            (
                ToggleStep::LookUp { strategy, providers, queue, current },
                ToggleEvent::Found(found),
            ) => {
                match require_failover_provider(found, kind, current.as_str()) {
                    Err(message) => fail(message),
                    Ok(_) => {
                        if strategy == FailoverStrategy::StickyRotation && holds(
                            &queue,
                            current.as_str(),
                        ) {
                            ToggleStep::Write { activated: None }
                        } else {
                            ToggleStep::Enqueue { strategy, providers, current }
                        }
                    },
                }
            },
            (
                ToggleStep::Enqueue { strategy, providers, current },
                ToggleEvent::Enqueued(Ok(())),
            ) => {
                if strategy == FailoverStrategy::StickyRotation {
                    ToggleStep::Write { activated: None }
                } else {
                    ToggleStep::RereadQueue { providers, current }
                }
            },
            (
                ToggleStep::Enqueue { strategy: _, providers: _, current: _ },
                ToggleEvent::Enqueued(Err(message)),
            ) => fail(message),
            (ToggleStep::RereadQueue { providers, current }, ToggleEvent::Queue(Ok(ids))) => {
                let queue = keep_retriable(kind, &providers, &ids);
                if queue.len() > 0 {
                    assert(queue.deep_view()[0] == queue@[0]@);
                    ToggleStep::Switch { target: queue[0].clone(), auto_added: Some(current) }
                } else {
                    fail("故障转移队列为空，无法开启故障转移".to_owned())
                }
            },
            (
                ToggleStep::RereadQueue { providers: _, current: _ },
                ToggleEvent::Queue(Err(message)),
            ) => fail(message),
            (ToggleStep::Switch { target, auto_added: _ }, ToggleEvent::Switched(Ok(()))) => {
                ToggleStep::Write { activated: Some(target) }
            },
            (
                ToggleStep::Switch { target: _, auto_added },
                ToggleEvent::Switched(Err(message)),
            ) => {
                match auto_added {
                    Some(provider) => ToggleStep::Dequeue { provider, error: message },
                    None => fail(message),
                }
            },
            (ToggleStep::Dequeue { provider: _, error }, ToggleEvent::Dequeued) => fail(error),
            (ToggleStep::Write { activated }, ToggleEvent::Written(Ok(()))) => {
                match activated {
                    Some(target) => ToggleStep::Emit { target },
                    None => ToggleStep::RefreshTray,
                }
            },
            (ToggleStep::Write { activated: _ }, ToggleEvent::Written(Err(message))) => fail(
                message,
            ),
            (ToggleStep::Emit { target: _ }, ToggleEvent::Emitted) => ToggleStep::RefreshTray,
            (ToggleStep::RefreshTray, ToggleEvent::TrayRefreshed) => ToggleStep::Done(Ok(())),
            (step, _) => step,
        };
        FailoverToggle { app, enabled, step }
    }
}

/// With the fixed order, failover is written down as switched on only right after the switch to
/// the head of the queue has succeeded; with the rotation, only where the current provider may
/// be retried with and is in the queue, or was just added to it.
pub proof fn law_failover_is_on_only_with_a_target(
    app: AppView,
    step: Step,
    answer: Answer,
)
    requires
        next_step(app, true, step, answer) is Write,
        !(step is Write),
    ensures
        match step {
            Step::Switch(target, _) => (answer matches Answer::Switched(Ok(_))) && next_step(
                app,
                true,
                step,
                answer,
            ) == Step::Write(Some(target)),
            Step::LookUp(strategy, _, queue, current) => strategy is StickyRotation
                && queue.contains(current) && (answer matches Answer::Found(found)
                && provider_refusal(found, app.kind, current) is None),
            Step::Enqueue(strategy, _, _) => strategy is StickyRotation && (
            answer matches Answer::Enqueued(Ok(_))),
            _ => false,
        },
{
}

/// A switch that fails takes back exactly the provider that was added for it, reports the
/// switch's own error, and leaves failover as it was.
pub proof fn law_a_failed_switch_is_taken_back(
    app: AppView,
    enabled: bool,
    target: Seq<char>,
    added: Seq<char>,
    error: Seq<char>,
)
    ensures
        next_step(
            app,
            enabled,
            Step::Switch(target, Some(added)),
            Answer::Switched(Err(error)),
        ) == Step::Dequeue(added, error),
        next_step(app, enabled, Step::Dequeue(added, error), Answer::Dequeued) == failed(
            error,
        ),
        next_step(
            app,
            enabled,
            Step::Switch(target, None),
            Answer::Switched(Err(error)),
        ) == failed(error),
{
}

/// The steps that switching off goes through.
pub open spec fn leaves_queue_alone(step: Step) -> bool {
    step is ReadConfig || step is ReadPolicy || step == Step::Write(None) || step is RefreshTray
        || step is Done
}

/// Switching failover off neither reads nor changes the queue, and switches to no provider: the
/// queue stays for the next time.
pub proof fn law_switching_off_leaves_the_queue_alone(
    app: AppView,
    step: Step,
    answer: Answer,
)
    requires
        leaves_queue_alone(step),
    ensures
        leaves_queue_alone(Step::ReadConfig),
        leaves_queue_alone(next_step(app, false, step, answer)),
{
}

/// What is done stays done.
pub proof fn law_done_stays_done(
    app: AppView,
    enabled: bool,
    result: Result<(), Seq<char>>,
    answer: Answer,
)
    ensures
        next_step(app, enabled, Step::Done(result), answer) == Step::Done(result),
{
}

/// The provider that is switched to heads the queue and may be retried with.
pub proof fn law_the_target_heads_the_queue(
    app: AppView,
    enabled: bool,
    step: Step,
    answer: Answer,
)
    requires
        !(step is Switch),
        next_step(app, enabled, step, answer) is Switch,
    ensures
        ({
            let target = next_step(app, enabled, step, answer)->Switch_0;
            match step {
                Step::ReadCurrent(_, _, queue) => queue.len() > 0 && target == queue[0],
                Step::RereadQueue(providers, _) => answer matches Answer::Queue(Ok(ids))
                    && retriable(app.kind, providers, ids).len() > 0 && target == retriable(
                    app.kind,
                    providers,
                    ids,
                )[0] && retry_target(app.kind, providers, target),
                _ => false,
            }
        }),
{
    match (step, answer) {
        (Step::RereadQueue(providers, current), Answer::Queue(Ok(ids))) => {
            lemma_retriable(app.kind, providers, ids, 0);
        },
        _ => {},
    }
}

proof fn lemma_retriable(
    app: AppType,
    providers: Seq<ProviderView>,
    ids: Seq<Seq<char>>,
    i: int,
)
    requires
        0 <= i < retriable(app, providers, ids).len(),
    ensures
        retry_target(app, providers, retriable(app, providers, ids)[i]),
    decreases ids.len(),
{
    if ids.len() > 0 && i < retriable(app, providers, ids.drop_last()).len() {
        lemma_retriable(app, providers, ids.drop_last(), i);
    }
}

} // verus!
