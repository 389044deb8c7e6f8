//! What holds of every switch to another provider.

use crate::json::{json_member, json_string};
use crate::switch::{next_move, switched_json, switching, Expectation, Move, Reply, Target};
use vstd::prelude::*;
use vstd::string::*;

verus! {

/// The move after several answers.
pub open spec fn after_replies(target: Target, step: Move, replies: Seq<Reply>) -> Move
    decreases replies.len(),
{
    if replies.len() == 0 {
        step
    } else {
        next_move(
            target,
            after_replies(target, step, replies.drop_last()),
            replies.last(),
        )
    }
}

/// Whether an answer is one to the question that a move asks.
pub open spec fn replies_to(step: Move, reply: Reply) -> bool {
    match step {
        Move::ReadConfig => reply is Config,
        Move::FindHost => reply is Host,
        Move::FindState => reply is State,
        Move::SwitchIfCurrent(_) => reply is Switched,
        Move::ReadCurrent => reply is Current,
        Move::SwitchDesktop => reply is Switched,
        Move::HotSwitch => reply is Switched,
        Move::RefreshTray => reply is TrayRefreshed,
        Move::Emit(_) => reply is Emitted,
        Move::Done(_) => false,
    }
}

/// Only an answer to the question that was asked leads on, and what is done stays done.
pub proof fn law_only_the_asked_reply_leads_on(target: Target, step: Move, reply: Reply)
    ensures
        !replies_to(step, reply) ==> next_move(target, step, reply) == step,
        replies_to(step, reply) ==> next_move(target, step, reply) != step,
{
}

/// Whatever fails ends the switch with its own message.
pub proof fn law_a_failed_switch_reports_its_error(target: Target, step: Move, message: Seq<char>)
    ensures
        step is ReadCurrent ==> next_move(target, step, Reply::Current(Err(message))) == Move::Done(
            Err(message),
        ),
        step is SwitchIfCurrent || step is SwitchDesktop || step is HotSwitch ==> next_move(
            target,
            step,
            Reply::Switched(Err(message)),
        ) == Move::Done(Err(message)),
{
}

/// Nothing is switched where the settings cannot be read, where the proxy has not taken over an
/// application other than the desktop client, or where there is no user interface; that is no
/// error. Where there is no application state, the user interface is told, and nothing switched.
pub proof fn law_what_is_not_switched(
    target: Target,
    taken_over: bool,
    present: bool,
)
    ensures
        next_move(target, Move::ReadConfig, Reply::Config(None)) == Move::Done(Ok(false)),
        next_move(target, Move::ReadConfig, Reply::Config(Some(taken_over))) == (if taken_over
            || target.app.kind is ClaudeDesktop {
            Move::FindHost
        } else {
            Move::Done(Ok(false))
        }),
        next_move(target, Move::FindHost, Reply::Host(present)) == (if present {
            Move::FindState
        } else {
            Move::Done(Ok(false))
        }),
        next_move(target, Move::FindState, Reply::State(false)) == Move::Emit(false),
        next_move(target, Move::Emit(present), Reply::Emitted) == Move::Done(Ok(present)),
{
}

/// How the switch itself is made: the desktop client is switched under its condition, or after its
/// current provider was read; every other application by switching the target of the proxy.
pub proof fn law_how_an_application_is_switched(
    target: Target,
    changed: bool,
    current: Option<Seq<char>>,
)
    ensures
        ({
            let start = next_move(target, Move::FindState, Reply::State(true));
            let tried = next_move(target, start, Reply::Switched(Ok(changed)));
            let known = next_move(target, start, Reply::Current(Ok(current)));
            let made = next_move(target, Move::SwitchDesktop, Reply::Switched(Ok(changed)));
            match (target.app.kind is ClaudeDesktop, target.expectation) {
                (false, _) => start is HotSwitch && tried == (if changed {
                    Move::RefreshTray
                } else {
                    Move::Done(Ok(false))
                }),
                (true, Expectation::IfCurrent(expected)) => start == Move::SwitchIfCurrent(
                    expected,
                ) && tried == (if changed {
                    Move::RefreshTray
                } else {
                    Move::Done(Ok(false))
                }),
                (true, Expectation::Unconditional) => start is ReadCurrent && known == (if current
                    == Some(target.provider_id) {
                    Move::Done(Ok(false))
                } else {
                    Move::SwitchDesktop
                }) && made is RefreshTray,
            }
        }),
        next_move(target, Move::RefreshTray, Reply::TrayRefreshed) == Move::Emit(true),
{
}

/// Whether a switch was made in the course of a run: it was asked for, and the answer was that it
/// changed something, or that the desktop client was switched.
pub open spec fn was_made(target: Target, replies: Seq<Reply>) -> bool {
    exists|k: int|
        0 <= k < replies.len() && (#[trigger] replies[k] matches Reply::Switched(Ok(changed)) && ({
            let asked = after_replies(target, Move::ReadConfig, replies.take(k));
            asked is SwitchDesktop || (changed && (asked is HotSwitch || asked is SwitchIfCurrent))
        }))
}

/// However the answers go, a switch reports that it was made only where it was.
pub proof fn law_success_means_a_switch_was_made(target: Target, replies: Seq<Reply>)
    ensures
        ({
            let end = after_replies(target, Move::ReadConfig, replies);
            end == Move::Done(Ok(true)) || end == Move::Emit(true) || end is RefreshTray
                ==> was_made(target, replies)
        }),
    decreases replies.len(),
{
    if replies.len() > 0 {
        let front = replies.drop_last();
        let n = replies.len() - 1;
        law_success_means_a_switch_was_made(target, front);
        assert(replies.take(n) =~= front);
        assert(replies[n] == replies.last());
        if was_made(target, front) {
            let k = choose|k: int|
                0 <= k < front.len() && (#[trigger] front[k] matches Reply::Switched(Ok(changed))
                    && ({
                    let asked = after_replies(target, Move::ReadConfig, front.take(k));
                    asked is SwitchDesktop || (changed && (asked is HotSwitch
                        || asked is SwitchIfCurrent))
                }));
            assert(replies[k] == front[k]);
            assert(replies.take(k) =~= front.take(k));
        }
    }
}

/// The user interface is told the application, the provider and the source of a switch, and
/// nothing else.
pub proof fn law_what_the_interface_is_told(
    app_type: Seq<char>,
    provider_id: Seq<char>,
    source: Seq<char>,
    key: Seq<char>,
)
    ensures
        ({
            let told = switched_json(app_type, provider_id, source);
            &&& json_string(json_member(told, "appType"@)) == Some(app_type)
            &&& json_string(json_member(told, "providerId"@)) == Some(provider_id)
            &&& json_string(json_member(told, "source"@)) == Some(source)
            &&& json_member(told, key) is Some ==> key == "appType"@ || key == "providerId"@ || key
                == "source"@
        }),
{
    reveal_strlit("appType");
    reveal_strlit("providerId");
    reveal_strlit("source");
    assert("appType"@.len() == 7);
    assert("providerId"@.len() == 10);
    assert("source"@.len() == 6);
}

} // verus!
