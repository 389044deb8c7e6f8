//! Switching an application to the provider that a failover has arrived at.

use crate::json::{json_view, object_value, string_value, Json};
use crate::keyed::KeyedMap;
use crate::provider::{App, AppType, AppView};
use crate::text::str_eq;
use serde_json::Value;
use vstd::prelude::*;
use vstd::string::*;

verus! {

/// Under which condition the desktop client is switched.
pub enum SwitchExpectation {
    /// Always.
    Unconditional,
    /// Only where this provider is current.
    IfCurrent(Option<String>),
}

/// Under which condition the desktop client is switched.
pub enum Expectation {
    Unconditional,
    IfCurrent(Option<Seq<char>>),
}

impl View for SwitchExpectation {
    type V = Expectation;

    open spec fn view(&self) -> Expectation {
        match self {
            SwitchExpectation::Unconditional => Expectation::Unconditional,
            SwitchExpectation::IfCurrent(current) => Expectation::IfCurrent(current.deep_view()),
        }
    }
}

/// What is to be found out or done next.
pub enum SwitchStep {
    /// Read whether the proxy has taken the application over.
    ReadConfig,
    /// Look for the user interface.
    FindHost,
    /// Look for the application's state.
    FindState,
    /// Switch the desktop client if the expected provider is current.
    SwitchIfCurrent { expected: Option<String> },
    /// Read which provider the desktop client uses.
    ReadCurrent,
    /// Switch the desktop client.
    SwitchDesktop,
    /// Switch the target of the proxy.
    HotSwitch,
    RefreshTray,
    /// Tell the user interface which provider is current.
    Emit { switched: bool },
    /// Whether a switch was made.
    Done(Result<bool, String>),
}

/// What is to be found out or done next.
pub enum Move {
    ReadConfig,
    FindHost,
    FindState,
    SwitchIfCurrent(Option<Seq<char>>),
    ReadCurrent,
    SwitchDesktop,
    HotSwitch,
    RefreshTray,
    Emit(bool),
    Done(Result<bool, Seq<char>>),
}

pub open spec fn changed_view(result: Result<bool, String>) -> Result<bool, Seq<char>> {
    match result {
        Ok(changed) => Ok(changed),
        Err(message) => Err(message@),
    }
}

impl View for SwitchStep {
    type V = Move;

    open spec fn view(&self) -> Move {
        match self {
            SwitchStep::ReadConfig => Move::ReadConfig,
            SwitchStep::FindHost => Move::FindHost,
            SwitchStep::FindState => Move::FindState,
            SwitchStep::SwitchIfCurrent { expected } => Move::SwitchIfCurrent(expected.deep_view()),
            SwitchStep::ReadCurrent => Move::ReadCurrent,
            SwitchStep::SwitchDesktop => Move::SwitchDesktop,
            SwitchStep::HotSwitch => Move::HotSwitch,
            SwitchStep::RefreshTray => Move::RefreshTray,
            SwitchStep::Emit { switched } => Move::Emit(*switched),
            SwitchStep::Done(result) => Move::Done(changed_view(*result)),
        }
    }
}

/// An answer.
pub enum SwitchEvent {
    /// Whether the proxy has taken the application over, where that can be read.
    Config(Option<bool>),
    /// Whether there is a user interface.
    Host(bool),
    /// Whether there is application state.
    State(bool),
    /// The provider that the desktop client uses.
    Current(Result<Option<String>, String>),
    /// Whether the switch changed anything.
    Switched(Result<bool, String>),
    TrayRefreshed,
    Emitted,
}

/// An answer.
pub enum Reply {
    Config(Option<bool>),
    Host(bool),
    State(bool),
    Current(Result<Option<Seq<char>>, Seq<char>>),
    Switched(Result<bool, Seq<char>>),
    TrayRefreshed,
    Emitted,
}

impl View for SwitchEvent {
    type V = Reply;

    open spec fn view(&self) -> Reply {
        match self {
            SwitchEvent::Config(enabled) => Reply::Config(*enabled),
            SwitchEvent::Host(present) => Reply::Host(*present),
            SwitchEvent::State(present) => Reply::State(*present),
            SwitchEvent::Current(result) => Reply::Current(
                match result {
                    Ok(id) => Ok(id.deep_view()),
                    Err(message) => Err(message@),
                },
            ),
            SwitchEvent::Switched(result) => Reply::Switched(changed_view(*result)),
            SwitchEvent::TrayRefreshed => Reply::TrayRefreshed,
            SwitchEvent::Emitted => Reply::Emitted,
        }
    }
}

/// What is being switched.
#[verifier::ext_equal]
pub struct Target {
    pub app: AppView,
    pub provider_id: Seq<char>,
    pub expectation: Expectation,
}

pub open spec fn for_desktop(target: Target) -> bool {
    target.app.kind is ClaudeDesktop
}

/// How the switch itself is made.
pub open spec fn switching(target: Target) -> Move {
    if for_desktop(target) {
        match target.expectation {
            Expectation::IfCurrent(expected) => Move::SwitchIfCurrent(expected),
            Expectation::Unconditional => Move::ReadCurrent,
        }
    } else {
        Move::HotSwitch
    }
}

/// After a switch that may have changed nothing.
pub open spec fn after_switch(result: Result<bool, Seq<char>>) -> Move {
    match result {
        Ok(true) => Move::RefreshTray,
        Ok(false) => Move::Done(Ok(false)),
        Err(message) => Move::Done(Err(message)),
    }
}

/// The move after an answer. An answer to another question changes nothing.
pub open spec fn next_move(target: Target, step: Move, reply: Reply) -> Move {
    match (step, reply) {
        (Move::ReadConfig, Reply::Config(enabled)) => match enabled {
            None => Move::Done(Ok(false)),
            Some(taken_over) => if taken_over || for_desktop(target) {
                Move::FindHost
            } else {
                Move::Done(Ok(false))
            },
        },
        (Move::FindHost, Reply::Host(present)) => if present {
            Move::FindState
        } else {
            Move::Done(Ok(false))
        },
        (Move::FindState, Reply::State(present)) => if present {
            switching(target)
        } else {
            Move::Emit(false)
        },
        (Move::SwitchIfCurrent(_), Reply::Switched(result)) => after_switch(result),
        (Move::ReadCurrent, Reply::Current(Err(message))) => Move::Done(Err(message)),
        (Move::ReadCurrent, Reply::Current(Ok(current))) => if current == Some(target.provider_id) {
            Move::Done(Ok(false))
        } else {
            Move::SwitchDesktop
        },
        (Move::SwitchDesktop, Reply::Switched(Err(message))) => Move::Done(Err(message)),
        (Move::SwitchDesktop, Reply::Switched(Ok(_))) => Move::RefreshTray,
        (Move::HotSwitch, Reply::Switched(result)) => after_switch(result),
        (Move::RefreshTray, Reply::TrayRefreshed) => Move::Emit(true),
        (Move::Emit(switched), Reply::Emitted) => Move::Done(Ok(switched)),
        (step, _) => step,
    }
}

/// One switch.
pub struct SwitchRun {
    pub app: App,
    pub provider_id: String,
    pub expectation: SwitchExpectation,
    pub step: SwitchStep,
}

impl SwitchRun {
    pub open spec fn target(&self) -> Target {
        Target {
            app: self.app@,
            provider_id: self.provider_id@,
            expectation: self.expectation@,
        }
    }

    /// Begins a switch.
    pub fn do_switch(app: &App, provider_id: &str, expectation: SwitchExpectation) -> (run:
        SwitchRun)
        ensures
            run.target() == (Target {
                app: app@,
                provider_id: provider_id@,
                expectation: expectation@,
            }),
            run.step@ == Move::ReadConfig,
    {
        SwitchRun {
            app: app.clone(),
            provider_id: provider_id.to_owned(),
            expectation,
            step: SwitchStep::ReadConfig,
        }
    }

    fn after(result: Result<bool, String>) -> (step: SwitchStep)
        ensures
            step@ == after_switch(changed_view(result)),
    {
        match result {
            Ok(changed) => if changed {
                SwitchStep::RefreshTray
            } else {
                SwitchStep::Done(Ok(false))
            },
            Err(message) => SwitchStep::Done(Err(message)),
        }
    }

    /// Takes the answer to the step that was to be done.
    pub fn advance(self, event: SwitchEvent) -> (next: SwitchRun)
        ensures
            next.target() == self.target(),
            next.step@ == next_move(self.target(), self.step@, event@),
    {
        let SwitchRun { app, provider_id, expectation, step } = self;
        let is_desktop = app.kind() == AppType::ClaudeDesktop;
        let step = match (step, event) {
            (SwitchStep::ReadConfig, SwitchEvent::Config(enabled)) => match enabled {
                None => SwitchStep::Done(Ok(false)),
                Some(taken_over) => if taken_over || is_desktop {
                    SwitchStep::FindHost
                } else {
                    SwitchStep::Done(Ok(false))
                },
            },
            (SwitchStep::FindHost, SwitchEvent::Host(present)) => {
                if present {
                    SwitchStep::FindState
                } else {
                    SwitchStep::Done(Ok(false))
                }
            },
            (SwitchStep::FindState, SwitchEvent::State(present)) => {
                if !present {
                    SwitchStep::Emit { switched: false }
                } else if is_desktop {
                    match &expectation {
                        SwitchExpectation::IfCurrent(expected) => SwitchStep::SwitchIfCurrent {
                            expected: match expected {
                                Some(id) => Some(id.clone()),
                                None => None,
                            },
                        },
                        SwitchExpectation::Unconditional => SwitchStep::ReadCurrent,
                    }
                } else {
                    SwitchStep::HotSwitch
                }
            },
            (SwitchStep::SwitchIfCurrent { expected: _ }, SwitchEvent::Switched(result)) => {
                Self::after(result)
            },
            (SwitchStep::ReadCurrent, SwitchEvent::Current(result)) => match result {
                Err(message) => SwitchStep::Done(Err(message)),
                Ok(current) => {
                    let same = match &current {
                        Some(id) => str_eq(id.as_str(), provider_id.as_str()),
                        None => false,
                    };
                    if same {
                        SwitchStep::Done(Ok(false))
                    } else {
                        SwitchStep::SwitchDesktop
                    }
                },
            },
            (SwitchStep::SwitchDesktop, SwitchEvent::Switched(result)) => match result {
                Err(message) => SwitchStep::Done(Err(message)),
                Ok(_) => SwitchStep::RefreshTray,
            },
            (SwitchStep::HotSwitch, SwitchEvent::Switched(result)) => Self::after(result),
            (SwitchStep::RefreshTray, SwitchEvent::TrayRefreshed) => SwitchStep::Emit {
                switched: true,
            },
            (SwitchStep::Emit { switched }, SwitchEvent::Emitted) => SwitchStep::Done(Ok(switched)),
            (step, _) => step,
        };
        SwitchRun { app, provider_id, expectation, step }
    }
}

/// Keeps apart the switches of one application: while one is going on, no other begins, even
/// to another provider.
pub struct FailoverSwitchManager {
    pub pending_switches: KeyedMap<()>,
}

impl FailoverSwitchManager {
    /// The applications that are being switched.
    pub open spec fn pending(&self) -> Set<Seq<char>> {
        self.pending_switches@.dom()
    }

    /// A manager with no switch going on.
    pub fn new() -> (manager: FailoverSwitchManager)
        ensures
            manager.pending() == Set::<Seq<char>>::empty(),
    {
        FailoverSwitchManager { pending_switches: KeyedMap::new() }
    }

    /// Begins a switch of an application, unless one is going on.
    pub fn begin(&mut self, app_type: &str) -> (begun: bool)
        ensures
            begun == !old(self).pending().contains(app_type@),
            final(self).pending() == old(self).pending().insert(app_type@),
    {
        if self.pending_switches.get(app_type).is_some() {
            assert(self.pending() =~= self.pending().insert(app_type@));
            return false;
        }
        self.pending_switches.insert(app_type, ());
        assert(self.pending() =~= old(self).pending().insert(app_type@));
        true
    }

    /// Ends the switch of an application, however it went.
    pub fn end(&mut self, app_type: &str)
        ensures
            final(self).pending() == old(self).pending().remove(app_type@),
    {
        let _ = self.pending_switches.remove(app_type);
        assert(self.pending() =~= old(self).pending().remove(app_type@));
    }

    /// Begins an unconditional switch, unless one of the application is going on.
    pub fn try_switch(&mut self, app: &App, provider_id: &str) -> (run: Option<SwitchRun>)
        ensures
            run is Some == !old(self).pending().contains(app@.name),
            run matches Some(run) ==> run.step@ == Move::ReadConfig && run.target() == (Target {
                app: app@,
                provider_id: provider_id@,
                expectation: Expectation::Unconditional,
            }),
            final(self).pending() == old(self).pending().insert(app@.name),
    {
        if !self.begin(app.name()) {
            return None;
        }
        Some(SwitchRun::do_switch(app, provider_id, SwitchExpectation::Unconditional))
    }

    /// Begins a switch that the desktop client makes only where the expected provider is current,
    /// unless one of the application is going on.
    pub fn try_switch_if_current(
        &mut self,
        app: &App,
        expected_current: Option<String>,
        provider_id: &str,
    ) -> (run: Option<SwitchRun>)
        ensures
            run is Some == !old(self).pending().contains(app@.name),
            run matches Some(run) ==> run.step@ == Move::ReadConfig && run.target() == (Target {
                app: app@,
                provider_id: provider_id@,
                expectation: Expectation::IfCurrent(expected_current.deep_view()),
            }),
            final(self).pending() == old(self).pending().insert(app@.name),
    {
        if !self.begin(app.name()) {
            return None;
        }
        Some(
            SwitchRun::do_switch(
                app,
                provider_id,
                SwitchExpectation::IfCurrent(expected_current),
            ),
        )
    }

    /// Takes a switch that has been advanced. One that is done frees its application, and its
    /// result is handed out; any other goes on, and is handed back.
    pub fn settle(&mut self, run: SwitchRun) -> (res: Result<Result<bool, String>, SwitchRun>)
        ensures
            match res {
                Ok(result) => run.step@ == Move::Done(changed_view(result)),
                Err(back) => !(run.step@ is Done) && back == run,
            },
            final(self).pending() == (if run.step@ is Done {
                old(self).pending().remove(run.target().app.name)
            } else {
                old(self).pending()
            }),
    {
        match run.step {
            SwitchStep::Done(result) => {
                self.end(run.app.name());
                Ok(result)
            },
            _ => Err(run),
        }
    }
}

/// A switch that has ended makes room for the next one of its application, and leaves those of
/// other applications alone.
pub proof fn law_an_ended_switch_makes_room(
    pending: Set<Seq<char>>,
    app_type: Seq<char>,
    other: Seq<char>,
)
    ensures
        !pending.insert(app_type).remove(app_type).contains(app_type),
        other != app_type ==> pending.insert(app_type).remove(app_type).contains(other)
            == pending.contains(other),
{
}

/// What the user interface is told of a switch.
pub open spec fn switched_json(
    app_type: Seq<char>,
    provider_id: Seq<char>,
    source: Seq<char>,
) -> Json {
    Json::Object(
        Map::<Seq<char>, Json>::empty().insert("appType"@, Json::Text(app_type)).insert(
            "providerId"@,
            Json::Text(provider_id),
        ).insert("source"@, Json::Text(source)),
    )
}

/// What the user interface is told of a switch: the application, its provider, and what made
/// the switch.
pub fn switched_event(app_type: &str, provider_id: &str, source: &str) -> (event: Value)
    ensures
        json_view(event) == switched_json(app_type@, provider_id@, source@),
{
    let mut entries: Vec<(String, Value)> = Vec::new();
    entries.push(("appType".to_owned(), string_value(app_type)));
    entries.push(("providerId".to_owned(), string_value(provider_id)));
    entries.push(("source".to_owned(), string_value(source)));
    let ghost all = entries@;
    proof {
        reveal_with_fuel(crate::json::entries_map, 4);
        assert(all.drop_last().drop_last().drop_last() =~= Seq::empty());
        reveal_strlit("appType");
        reveal_strlit("providerId");
        reveal_strlit("source");
        assert("appType"@.len() == 7);
        assert("providerId"@.len() == 10);
        assert("source"@.len() == 6);
    }
    object_value(entries)
}

/// A switch reports success only after it was made: the tray is refreshed and the user
/// interface told in between.
pub proof fn law_success_means_switched(target: Target, step: Move, reply: Reply)
    requires
        !(step is Emit && step->Emit_0),
        next_move(target, step, reply) == Move::Emit(true),
    ensures
        step is RefreshTray,
{
}

/// An application that the proxy has not taken over is never switched, but for the desktop client.
pub proof fn law_only_what_is_taken_over_is_switched(target: Target)
    requires
        !for_desktop(target),
    ensures
        next_move(target, Move::ReadConfig, Reply::Config(Some(false))) == Move::Done(Ok(false)),
        next_move(target, Move::ReadConfig, Reply::Config(None)) == Move::Done(Ok(false)),
{
}

/// The desktop client is not switched to the provider that it uses already.
pub proof fn law_no_switch_to_the_current_provider(target: Target)
    ensures
        next_move(target, Move::ReadCurrent, Reply::Current(Ok(Some(target.provider_id))))
            == Move::Done(Ok(false)),
{
}

} // verus!
