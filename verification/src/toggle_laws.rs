//! What holds of every attempt to switch failover on or off.

use crate::picking::{lemma_picked_first, lemma_picked_next, lemma_picked_none, picked};
use crate::provider::{retry_target, supports_failover, AppView, ProviderView};
use crate::router::FailoverStrategy;
use crate::toggle::{next_step, retriable, Answer, Step};
use vstd::prelude::*;

verus! {

/// The step after several answers.
pub open spec fn after_answers(
    app: AppView,
    enabled: bool,
    step: Step,
    answers: Seq<Answer>,
) -> Step
    decreases answers.len(),
{
    if answers.len() == 0 {
        step
    } else {
        next_step(
            app,
            enabled,
            after_answers(app, enabled, step, answers.drop_last()),
            answers.last(),
        )
    }
}

/// Whether an answer is one to the question that a step asks.
pub open spec fn answers(step: Step, answer: Answer) -> bool {
    match step {
        Step::ReadConfig => answer is Config,
        Step::CheckRunning => answer is Running,
        Step::ReadPolicy => answer is Policy,
        Step::ReadProviders(_) => answer is Providers,
        Step::ReadQueue(_, _) => answer is Queue,
        Step::ReadCurrent(_, _, _) => answer is Current,
        Step::LookUp(_, _, _, _) => answer is Found,
        Step::Enqueue(_, _, _) => answer is Enqueued,
        Step::RereadQueue(_, _) => answer is Queue,
        Step::Switch(_, _) => answer is Switched,
        Step::Dequeue(_, _) => answer is Dequeued,
        Step::Write(_) => answer is Written,
        Step::Emit(_) => answer is Emitted,
        Step::RefreshTray => answer is TrayRefreshed,
        Step::Done(_) => false,
    }
}

/// The error that an answer reports.
pub open spec fn reported(answer: Answer) -> Option<Seq<char>> {
    match answer {
        Answer::Config(Err(message)) => Some(message),
        Answer::Policy(Err(message)) => Some(message),
        Answer::Providers(Err(message)) => Some(message),
        Answer::Queue(Err(message)) => Some(message),
        Answer::Current(Err(message)) => Some(message),
        Answer::Found(Err(message)) => Some(message),
        Answer::Enqueued(Err(message)) => Some(message),
        Answer::Switched(Err(message)) => Some(message),
        Answer::Written(Err(message)) => Some(message),
        _ => None,
    }
}

/// Only an answer to the question that was asked leads on.
pub proof fn law_only_the_asked_answer_leads_on(
    app: AppView,
    enabled: bool,
    step: Step,
    answer: Answer,
)
    ensures
        !answers(step, answer) ==> next_step(app, enabled, step, answer) == step,
        answers(step, answer) ==> next_step(app, enabled, step, answer) != step,
{
}

/// Whatever fails ends the attempt with its own message; only a provider that was added for a
/// switch is first taken out of the queue again.
pub proof fn law_what_fails_is_reported(app: AppView, enabled: bool, step: Step, answer: Answer)
    requires
        answers(step, answer),
        reported(answer) is Some,
    ensures
        match step {
            Step::Switch(_, Some(added)) => next_step(app, enabled, step, answer) == Step::Dequeue(
                added,
                reported(answer)->0,
            ),
            _ => next_step(app, enabled, step, answer) == Step::Done(Err(reported(answer)->0)),
        },
{
}

/// A single step towards success is made only where it is due: the user interface is told only
/// after failover was written down with a provider that was switched to, the tray is refreshed
/// only after that or after failover was written down without one, and success is reported only
/// after the tray was refreshed.
pub proof fn law_each_step_to_success_is_due(
    app: AppView,
    enabled: bool,
    step: Step,
    answer: Answer,
)
    ensures
        ({
            let next = next_step(app, enabled, step, answer);
            &&& next is Emit && !(step is Emit) ==> (step matches Step::Write(Some(target))
                && next == Step::Emit(target)) && (answer matches Answer::Written(Ok(_)))
            &&& next is RefreshTray && !(step is RefreshTray) ==> (step == Step::Write(None) && (
            answer matches Answer::Written(Ok(_)))) || (step is Emit && answer is Emitted)
            &&& (next matches Step::Done(Ok(_))) && !(step is Done) ==> step is RefreshTray
                && answer is TrayRefreshed
        }),
{
}

/// Whether failover was written down in the course of an attempt: at some point it was to be, and
/// the store answered that it was.
pub open spec fn was_written(
    app: AppView,
    enabled: bool,
    step: Step,
    given: Seq<Answer>,
) -> bool {
    exists|k: int|
        0 <= k < given.len() && after_answers(
            app,
            enabled,
            step,
            given.take(k),
        ) is Write && (#[trigger] given[k] matches Answer::Written(Ok(_)))
}

/// However the answers go, an attempt reports success only after failover was written down.
pub proof fn law_success_means_written(app: AppView, enabled: bool, given: Seq<Answer>)
    ensures
        ({
            let end = after_answers(app, enabled, Step::ReadConfig, given);
            (end matches Step::Done(Ok(_))) || end is RefreshTray || end is Emit ==> was_written(
                app,
                enabled,
                Step::ReadConfig,
                given,
            )
        }),
    decreases given.len(),
{
    if given.len() > 0 {
        let front = given.drop_last();
        let n = given.len() - 1;
        law_success_means_written(app, enabled, front);
        let before = after_answers(app, enabled, Step::ReadConfig, front);
        assert(given.take(n) =~= front);
        if was_written(app, enabled, Step::ReadConfig, front) {
            let k = choose|k: int|
                0 <= k < front.len() && after_answers(
                    app,
                    enabled,
                    Step::ReadConfig,
                    front.take(k),
                ) is Write && (#[trigger] front[k] matches Answer::Written(Ok(_)));
            assert(given[k] == front[k]);
            assert(given.take(k) =~= front.take(k));
        }
        law_each_step_to_success_is_due(app, enabled, before, given.last());
        assert(given[n] == given.last());
    }
}

/// Switching off writes that down, whatever the policy and whether the proxy has taken the
/// application over, and then refreshes the tray.
pub proof fn law_switching_off_writes_it_down(
    app: AppView,
    taken_over: bool,
    strategy: FailoverStrategy,
)
    ensures
        ({
            let a = next_step(app, false, Step::ReadConfig, Answer::Config(Ok(taken_over)));
            let b = next_step(app, false, a, Answer::Policy(Ok(strategy)));
            let c = next_step(app, false, b, Answer::Written(Ok(())));
            let d = next_step(app, false, c, Answer::TrayRefreshed);
            &&& a is ReadPolicy
            &&& b == Step::Write(None)
            &&& c is RefreshTray
            &&& d == Step::Done(Ok(()))
        }),
{
}

/// Switching on needs a proxy: one that has taken the application over, or a running one for the
/// desktop client.
pub proof fn law_switching_on_needs_a_proxy(app: AppView, taken_over: bool, running: bool)
    ensures
        ({
            let a = next_step(app, true, Step::ReadConfig, Answer::Config(Ok(taken_over)));
            let b = next_step(app, true, a, Answer::Running(running));
            if app.kind is ClaudeDesktop {
                &&& a is CheckRunning
                &&& running ==> b is ReadPolicy
                &&& !running ==> b == Step::Done(
                    Err("需要先启动本地路由服务，再开启 "@ + app.title + " 故障转移"@),
                )
            } else {
                &&& taken_over ==> a is ReadPolicy
                &&& !taken_over ==> a == Step::Done(
                    Err("需要先启用该应用的代理接管，再开启故障转移"@),
                )
            }
        }),
{
}

proof fn lemma_retriable_picked(
    app: AppView,
    providers: Seq<ProviderView>,
    ids: Seq<Seq<char>>,
)
    ensures
        picked(
            ids.len() as int,
            |i: int| retry_target(app.kind, providers, ids[i]),
            |i: int| ids[i],
            retriable(app.kind, providers, ids),
        ),
    decreases ids.len(),
{
    let keep = |i: int| retry_target(app.kind, providers, ids[i]);
    let image = |i: int| ids[i];
    if ids.len() == 0 {
        lemma_picked_none(keep, image);
    } else {
        let front = ids.drop_last();
        lemma_retriable_picked(app, providers, front);
        lemma_picked_next(
            front.len() as int,
            |i: int| retry_target(app.kind, providers, front[i]),
            |i: int| front[i],
            retriable(app.kind, providers, front),
            keep,
            image,
        );
    }
}

/// Whether the first identifier in a queue that may be retried with stands at `first`; none does
/// where that is the queue's length.
pub open spec fn first_target(
    app: AppView,
    providers: Seq<ProviderView>,
    ids: Seq<Seq<char>>,
    first: int,
) -> bool {
    &&& 0 <= first <= ids.len()
    &&& forall|k: int| 0 <= k < first ==> !retry_target(app.kind, providers, #[trigger] ids[k])
    &&& first < ids.len() ==> retry_target(app.kind, providers, ids[first])
}

/// Of the store's queue exactly the identifiers that may be retried with are kept, in order.
pub proof fn law_the_queue_is_read_as_far_as_it_can_be_retried(
    app: AppView,
    strategy: FailoverStrategy,
    providers: Seq<ProviderView>,
    ids: Seq<Seq<char>>,
)
    ensures
        ({
            let a = next_step(app, true, Step::ReadPolicy, Answer::Policy(Ok(strategy)));
            let b = next_step(app, true, a, Answer::Providers(Ok(providers)));
            let c = next_step(app, true, b, Answer::Queue(Ok(ids)));
            &&& a == Step::ReadProviders(strategy)
            &&& b == Step::ReadQueue(strategy, providers)
            &&& c matches Step::ReadCurrent(s, p, queue) && s == strategy && p == providers
                && picked(
                ids.len() as int,
                |i: int| retry_target(app.kind, providers, ids[i]),
                |i: int| ids[i],
                queue,
            )
        }),
{
    lemma_retriable_picked(app, providers, ids);
}

/// With the fixed order, switching on leads to a switch to the first queued provider that may be
/// retried with. Where the queue has none, the current provider is looked up, and without one
/// there is an error.
pub proof fn law_switching_on_with_a_fixed_order(
    app: AppView,
    providers: Seq<ProviderView>,
    ids: Seq<Seq<char>>,
    first: int,
    current: Option<Seq<char>>,
)
    requires
        first_target(app, providers, ids, first),
    ensures
        ({
            let read = next_step(
                app,
                true,
                Step::ReadQueue(FailoverStrategy::FixedPriority, providers),
                Answer::Queue(Ok(ids)),
            );
            let next = next_step(app, true, read, Answer::Current(Ok(current)));
            if first < ids.len() {
                next == Step::Switch(ids[first], None)
            } else {
                match current {
                    Some(id) => next matches Step::LookUp(s, p, queue, c) && s is FixedPriority && p
                        == providers && queue.len() == 0 && c == id,
                    None => next == Step::Done(
                        Err("故障转移队列为空，且未设置当前供应商，无法开启故障转移"@),
                    ),
                }
            }
        }),
{
    lemma_retriable_picked(app, providers, ids);
    lemma_picked_first(
        ids.len() as int,
        |i: int| retry_target(app.kind, providers, ids[i]),
        |i: int| ids[i],
        retriable(app.kind, providers, ids),
        first,
    );
}

/// With the rotation, switching on needs a current provider, and never switches away from it.
pub proof fn law_switching_on_with_the_rotation(
    app: AppView,
    providers: Seq<ProviderView>,
    queue: Seq<Seq<char>>,
    current: Option<Seq<char>>,
    found: ProviderView,
)
    ensures
        ({
            let rotation = FailoverStrategy::StickyRotation;
            let next = next_step(
                app,
                true,
                Step::ReadCurrent(rotation, providers, queue),
                Answer::Current(Ok(current)),
            );
            match current {
                None => next == Step::Done(Err("未设置当前供应商，无法开启当前优先轮转"@)),
                Some(id) => {
                    let looked = next_step(app, true, next, Answer::Found(Ok(Some(found))));
                    let added = next_step(app, true, looked, Answer::Enqueued(Ok(())));
                    &&& next == Step::LookUp(rotation, providers, queue, id)
                    &&& supports_failover(app.kind, found) && queue.contains(id) ==> looked
                        == Step::Write(None)
                    &&& supports_failover(app.kind, found) && !queue.contains(id) ==> looked
                        == Step::Enqueue(rotation, providers, id) && added == Step::Write(None)
                },
            }
        }),
{
}

/// The current provider is refused where the store does not have it or it may not be retried with.
pub proof fn law_an_unfit_current_provider_is_refused(
    app: AppView,
    strategy: FailoverStrategy,
    providers: Seq<ProviderView>,
    queue: Seq<Seq<char>>,
    current: Seq<char>,
    found: ProviderView,
)
    ensures
        next_step(
            app,
            true,
            Step::LookUp(strategy, providers, queue, current),
            Answer::Found(Ok(None)),
        ) == Step::Done(Err("供应商不存在: "@ + current)),
        !supports_failover(app.kind, found) ==> next_step(
            app,
            true,
            Step::LookUp(strategy, providers, queue, current),
            Answer::Found(Ok(Some(found))),
        ) == Step::Done(Err("Codex Official 账号卡不支持自动故障转移"@)),
{
}

/// With the fixed order and nothing to retry with in the queue, the current provider is added to
/// it, the queue is read again, and the switch goes to its first provider that may be retried
/// with; the provider that was added is remembered.
pub proof fn law_an_empty_queue_gets_the_current_provider(
    app: AppView,
    providers: Seq<ProviderView>,
    current: Seq<char>,
    found: ProviderView,
    queue: Seq<Seq<char>>,
    ids: Seq<Seq<char>>,
    first: int,
)
    requires
        supports_failover(app.kind, found),
        first_target(app, providers, ids, first),
    ensures
        ({
            let fixed = FailoverStrategy::FixedPriority;
            let a = next_step(
                app,
                true,
                Step::LookUp(fixed, providers, queue, current),
                Answer::Found(Ok(Some(found))),
            );
            let b = next_step(app, true, a, Answer::Enqueued(Ok(())));
            let c = next_step(app, true, b, Answer::Queue(Ok(ids)));
            &&& a == Step::Enqueue(fixed, providers, current)
            &&& b == Step::RereadQueue(providers, current)
            &&& first < ids.len() ==> c == Step::Switch(ids[first], Some(current))
            &&& first == ids.len() ==> c == Step::Done(Err("故障转移队列为空，无法开启故障转移"@))
        }),
{
    lemma_retriable_picked(app, providers, ids);
    lemma_picked_first(
        ids.len() as int,
        |i: int| retry_target(app.kind, providers, ids[i]),
        |i: int| ids[i],
        retriable(app.kind, providers, ids),
        first,
    );
}

/// A switch that succeeded is followed by writing failover down, telling the user interface of
/// that provider, refreshing the tray, and success.
pub proof fn law_after_the_switch(
    app: AppView,
    enabled: bool,
    target: Seq<char>,
    added: Option<Seq<char>>,
    error: Seq<char>,
)
    ensures
        ({
            let a = next_step(
                app,
                enabled,
                Step::Switch(target, added),
                Answer::Switched(Ok(())),
            );
            let b = next_step(app, enabled, a, Answer::Written(Ok(())));
            let c = next_step(app, enabled, b, Answer::Emitted);
            let d = next_step(app, enabled, c, Answer::TrayRefreshed);
            &&& a == Step::Write(Some(target))
            &&& b == Step::Emit(target)
            &&& c is RefreshTray
            &&& d == Step::Done(Ok(()))
        }),
        next_step(app, enabled, Step::Dequeue(target, error), Answer::Dequeued) == Step::Done(
            Err(error),
        ),
        next_step(app, enabled, Step::Write(None), Answer::Written(Ok(()))) is RefreshTray,
{
}

} // verus!
