//! The choice of providers for a request: the order of retries, circuit breakers and
//! rate-limit cooldowns.

use crate::keyed::{keys_under, without_prefix, KeyedMap};
use crate::provider::{
    find_provider, provider_by_id, provider_supports_failover, provider_views, supports_failover,
    App, AppType, AppView, Provider, ProviderView,
};
use crate::text::{
    chars_of, concat2, concat3, find_char, lemma_find_char_bound, lemma_find_char_is, str_eq,
};
use vstd::prelude::*;
use vstd::string::*;

verus! {

/// In which order providers are tried.
#[derive(Debug, Clone, Copy, PartialEq, Eq, Structural)]
pub enum FailoverStrategy {
    /// In the order of the queue.
    FixedPriority,
    /// Round the queue, from the current provider on.
    StickyRotation,
}

/// How an application fails over.
#[derive(Debug, Clone, Copy, PartialEq, Eq, Structural)]
pub struct FailoverPolicy {
    pub strategy: FailoverStrategy,
    pub rate_limit_cooldown_seconds: u32,
    pub max_rate_limit_cooldown_seconds: u32,
}

/// Why no provider can be chosen.
#[derive(Debug, Clone, Copy, PartialEq, Eq, Structural)]
pub enum AppError {
    NoProvidersConfigured,
    AllProvidersCircuitOpen,
}

/// The providers that a request may go to.
pub enum RoutePlan {
    /// None is configured.
    Nowhere,
    /// This one, whatever its circuit breaker says.
    Single(Provider),
    /// These, in this order, as far as they are available.
    Candidates(Vec<Provider>),
}

/// The providers that a request may go to.
pub enum Route {
    Nowhere,
    Single(ProviderView),
    Candidates(Seq<ProviderView>),
}

impl View for RoutePlan {
    type V = Route;

    open spec fn view(&self) -> Route {
        match self {
            RoutePlan::Nowhere => Route::Nowhere,
            RoutePlan::Single(provider) => Route::Single(provider@),
            RoutePlan::Candidates(providers) => Route::Candidates(provider_views(providers@)),
        }
    }
}

pub open spec fn optional_provider(provider: Option<Provider>) -> Option<ProviderView> {
    match provider {
        Some(provider) => Some(provider@),
        None => None,
    }
}

/// Where an identifier first stands in a list, or the list's length.
pub open spec fn position_of(ids: Seq<Seq<char>>, id: Seq<char>) -> int
    decreases ids.len(),
{
    if ids.len() == 0 || ids[0] == id {
        0
    } else {
        1 + position_of(ids.drop_first(), id)
    }
}

/// The queue in the order in which it is tried: round from the current provider on where the
/// strategy says so and the current provider is in it.
pub open spec fn trial_order(
    queue: Seq<Seq<char>>,
    strategy: FailoverStrategy,
    current: Option<Seq<char>>,
) -> Seq<Seq<char>> {
    if strategy is StickyRotation && current is Some {
        let i = position_of(queue, current->0);
        if i < queue.len() {
            queue.skip(i) + queue.take(i)
        } else {
            queue
        }
    } else {
        queue
    }
}

/// The providers of a list of identifiers, in order, that a request may be retried with.
pub open spec fn candidates(
    app: AppType,
    providers: Seq<ProviderView>,
    ids: Seq<Seq<char>>,
) -> Seq<ProviderView>
    decreases ids.len(),
{
    if ids.len() == 0 {
        Seq::empty()
    } else {
        let before = candidates(app, providers, ids.drop_last());
        match find_provider(providers, ids.last()) {
            Some(provider) => if supports_failover(app, provider) {
                before.push(provider)
            } else {
                before
            },
            None => before,
        }
    }
}

/// The providers that a request may go to. Without failover that is the current one. A current
/// provider that must not be retried with is an explicit choice and stays the only one, even
/// where failover is left on.
pub open spec fn planned(
    app: AppType,
    failover: bool,
    strategy: FailoverStrategy,
    current_id: Option<Seq<char>>,
    current: Option<ProviderView>,
    providers: Seq<ProviderView>,
    queue: Seq<Seq<char>>,
) -> Route {
    if failover && !(current is Some && !supports_failover(app, current->0)) {
        Route::Candidates(
            candidates(app, providers, trial_order(queue, strategy, current_id)),
        )
    } else {
        match current {
            Some(provider) => Route::Single(provider),
            None => Route::Nowhere,
        }
    }
}

/// The current provider: the one that the settings name, or else the one that the store names.
pub fn current_provider_id(effective: Option<String>, stored: Option<String>) -> (id: Option<String>)
    ensures
        id.deep_view() == (if effective is Some {
            effective.deep_view()
        } else {
            stored.deep_view()
        }),
{
    match effective {
        Some(id) => Some(id),
        None => stored,
    }
}

/// Puts a queue into the order in which it is tried.
fn order_queue(queue: Vec<String>, strategy: FailoverStrategy, current: &Option<String>) -> (ids:
    Vec<String>)
    ensures
        ids.deep_view() == trial_order(queue.deep_view(), strategy, current.deep_view()),
{
    if strategy == FailoverStrategy::StickyRotation {
        if let Some(id) = current {
            let ghost all = queue.deep_view();
            let mut i: usize = 0;
            assert(all.skip(0) =~= all);
            while i < queue.len() && !str_eq(queue[i].as_str(), id.as_str())
                invariant
                    all == queue.deep_view(),
                    i <= queue.len(),
                    position_of(all, id@) == i + position_of(all.skip(i as int), id@),
                decreases queue.len() - i,
            {
                assert(all.skip(i as int)[0] == queue@[i as int]@);
                assert(all.skip(i as int).drop_first() =~= all.skip(i + 1));
                i += 1;
            }
            if i < queue.len() {
                assert(all.skip(i as int)[0] == queue@[i as int]@);
                let mut front = queue;
                let mut back = front.split_off(i);
                let ghost back_view = back.deep_view();
                let ghost front_view = front.deep_view();
                back.append(&mut front);
                assert(back.deep_view() =~= back_view + front_view);
                assert(back_view =~= all.skip(i as int));
                assert(front_view =~= all.take(i as int));
                return back;
            }
        }
    }
    queue
}

/// Plans where a request may go. `current` is the provider that `current_id` names, where the
/// store has it; `providers` and `queue` are the application's.
pub fn plan_providers(
    app: &App,
    failover: bool,
    strategy: FailoverStrategy,
    current_id: Option<String>,
    current: Option<Provider>,
    providers: &Vec<Provider>,
    queue: Vec<String>,
) -> (plan: RoutePlan)
    ensures
        plan@ == planned(
            app@.kind,
            failover,
            strategy,
            current_id.deep_view(),
            optional_provider(current),
            provider_views(providers@),
            queue.deep_view(),
        ),
{
    let app = app.kind();
    let fixed = match &current {
        Some(provider) => !provider_supports_failover(app, provider),
        None => false,
    };
    if failover && !fixed {
        let ids = order_queue(queue, strategy, &current_id);
        let ghost all = ids.deep_view();
        let mut found: Vec<Provider> = Vec::new();
        assert(provider_views(found@) =~= Seq::<ProviderView>::empty());
        let mut i: usize = 0;
        while i < ids.len()
            invariant
                all == ids.deep_view(),
                i <= ids.len(),
                provider_views(found@) == candidates(
                    app,
                    provider_views(providers@),
                    all.take(i as int),
                ),
            decreases ids.len() - i,
        {
            assert(all.take(i + 1).drop_last() =~= all.take(i as int));
            assert(all.take(i + 1).last() == ids@[i as int]@);
            if let Some(provider) = provider_by_id(providers, ids[i].as_str()) {
                if provider_supports_failover(app, provider) {
                    let ghost before = provider_views(found@);
                    let copy = provider.clone();
                    found.push(copy);
                    assert(provider_views(found@) =~= before.push(provider@));
                }
            }
            i += 1;
        }
        assert(all.take(all.len() as int) =~= all);
        RoutePlan::Candidates(found)
    } else {
        match current {
            Some(provider) => RoutePlan::Single(provider),
            None => RoutePlan::Nowhere,
        }
    }
}

/// The key under which a provider's circuit breaker and cooldown are kept.
pub open spec fn circuit_key(app_type: Seq<char>, provider_id: Seq<char>) -> Seq<char> {
    app_type + ":"@ + provider_id
}

/// What the keys of an application begin with.
pub open spec fn app_prefix(app_type: Seq<char>) -> Seq<char> {
    app_type + ":"@
}

/// The application that a key belongs to: what stands before its first colon.
pub open spec fn app_of_key(key: Seq<char>) -> Seq<char> {
    key.take(find_char(key, ':') as int)
}

/// The key of a provider.
pub fn make_circuit_key(app_type: &str, provider_id: &str) -> (key: String)
    ensures
        key@ == circuit_key(app_type@, provider_id@),
{
    concat3(app_type, ":", provider_id)
}

/// The application whose settings the circuit breaker of a key gets.
pub fn app_type_of_key(key: &str) -> (app_type: String)
    ensures
        app_type@ == app_of_key(key@),
{
    let chars = chars_of(key);
    let mut i: usize = 0;
    while i < chars.len() && chars[i] != ':'
        invariant
            chars@ == key@,
            i <= chars.len(),
            forall|k: int| 0 <= k < i ==> key@[k] != ':',
        decreases chars.len() - i,
    {
        i += 1;
    }
    proof {
        lemma_find_char_bound(key@, ':');
        if i < chars.len() {
            lemma_find_char_is(key@, ':', i as int);
        } else if find_char(key@, ':') < key@.len() {
            assert(key@[find_char(key@, ':') as int] == ':');
        }
    }
    let text = key.substring_char(0, i).to_owned();
    assert(text@ =~= key@.take(i as int));
    text
}

/// How long the cooldown of a policy is, in seconds: at most the maximum, at least one.
pub open spec fn cooldown_seconds(policy: FailoverPolicy) -> u32 {
    let capped = if policy.rate_limit_cooldown_seconds <= policy.max_rate_limit_cooldown_seconds {
        policy.rate_limit_cooldown_seconds
    } else {
        policy.max_rate_limit_cooldown_seconds
    };
    if capped == 0 {
        1
    } else {
        capped
    }
}

/// How many nanoseconds a second has.
pub const NANOS_PER_SECOND: u128 = 1000000000;

pub open spec fn cooldown_nanos(policy: FailoverPolicy) -> u128 {
    (cooldown_seconds(policy) as u128 * NANOS_PER_SECOND) as u128
}

/// Whether a cooldown is running at a time.
pub open spec fn cooling(cooldowns: Map<Seq<char>, u128>, key: Seq<char>, now: u64) -> bool {
    cooldowns.contains_key(key) && cooldowns[key] > now
}

/// The cooldowns that are running at a time.
pub open spec fn running(cooldowns: Map<Seq<char>, u128>, now: u64) -> Map<Seq<char>, u128> {
    Map::new(
        |key: Seq<char>| cooling(cooldowns, key, now),
        |key: Seq<char>| cooldowns[key],
    )
}

/// The cooldowns after one of them was looked at: it is dropped where it has run out.
pub open spec fn looked_at(cooldowns: Map<Seq<char>, u128>, key: Seq<char>, now: u64) -> Map<
    Seq<char>,
    u128,
> {
    if cooling(cooldowns, key, now) {
        cooldowns
    } else {
        cooldowns.remove(key)
    }
}

/// The cooldowns after a provider was marked as rate limited: a cooldown that is running stays
/// as it is, and otherwise one starts, where the strategy knows cooldowns.
pub open spec fn marked(
    cooldowns: Map<Seq<char>, u128>,
    key: Seq<char>,
    policy: FailoverPolicy,
    now: u64,
) -> Map<Seq<char>, u128> {
    if policy.strategy is StickyRotation && !cooling(cooldowns, key, now) {
        cooldowns.insert(key, (now + cooldown_nanos(policy)) as u128)
    } else {
        cooldowns
    }
}

/// Whether a candidate is passed over because of its rate limit. The desktop client waits for
/// the end of a cooldown within the request and so keeps it.
pub open spec fn passed_over(
    app: AppView,
    strategy: FailoverStrategy,
    cooldowns: Map<Seq<char>, u128>,
    id: Seq<char>,
    now: u64,
) -> bool {
    strategy is StickyRotation && !(app.kind is ClaudeDesktop) && cooling(
        cooldowns,
        circuit_key(app.name, id),
        now,
    )
}

/// The candidates that are tried: those that are not passed over and whose circuit breaker
/// lets requests through. The desktop client keeps them all.
pub open spec fn tried(
    app: AppView,
    strategy: FailoverStrategy,
    cooldowns: Map<Seq<char>, u128>,
    providers: Seq<ProviderView>,
    available: Seq<bool>,
    now: u64,
) -> Seq<ProviderView>
    decreases providers.len(),
{
    if providers.len() == 0 {
        Seq::empty()
    } else {
        let before = tried(
            app,
            strategy,
            cooldowns,
            providers.drop_last(),
            available,
            now,
        );
        if !passed_over(app, strategy, cooldowns, providers.last().id, now) && (available[
        providers.len() - 1] || app.kind is ClaudeDesktop) {
            before.push(providers.last())
        } else {
            before
        }
    }
}

/// What a request is routed to.
pub open spec fn routed(
    app: AppView,
    strategy: FailoverStrategy,
    cooldowns: Map<Seq<char>, u128>,
    route: Route,
    available: Seq<bool>,
    now: u64,
) -> Result<Seq<ProviderView>, AppError> {
    match route {
        Route::Nowhere => Err(AppError::NoProvidersConfigured),
        Route::Single(provider) => Ok(seq![provider]),
        Route::Candidates(providers) => {
            let result = tried(app, strategy, cooldowns, providers, available, now);
            if result.len() > 0 {
                Ok(result)
            } else if providers.len() > 0 {
                Err(AppError::AllProvidersCircuitOpen)
            } else {
                Err(AppError::NoProvidersConfigured)
            }
        },
    }
}

/// The cooldowns after a route was chosen: those of its candidates that have run out are
/// dropped where the strategy looks at them.
pub open spec fn after_routing(
    app: AppView,
    strategy: FailoverStrategy,
    cooldowns: Map<Seq<char>, u128>,
    providers: Seq<ProviderView>,
    now: u64,
) -> Map<Seq<char>, u128>
    decreases providers.len(),
{
    if providers.len() == 0 || !(strategy is StickyRotation) {
        cooldowns
    } else {
        looked_at(
            after_routing(app, strategy, cooldowns, providers.drop_last(), now),
            circuit_key(app.name, providers.last().id),
            now,
        )
    }
}

/// The candidates of a route.
pub open spec fn route_candidates(route: Route) -> Seq<ProviderView> {
    match route {
        Route::Candidates(providers) => providers,
        _ => Seq::empty(),
    }
}

/// The remaining time of a provider's cooldown.
pub open spec fn remaining(
    cooldowns: Map<Seq<char>, u128>,
    app_type: Seq<char>,
    id: Seq<char>,
    now: u64,
) -> Option<u128> {
    let key = circuit_key(app_type, id);
    if cooling(cooldowns, key, now) {
        Some((cooldowns[key] - now) as u128)
    } else {
        None
    }
}

/// The shortest remaining cooldown among some providers.
pub open spec fn earliest(
    cooldowns: Map<Seq<char>, u128>,
    app_type: Seq<char>,
    providers: Seq<ProviderView>,
    now: u64,
) -> Option<u128>
    decreases providers.len(),
{
    if providers.len() == 0 {
        None
    } else {
        let before = earliest(cooldowns, app_type, providers.drop_last(), now);
        match (before, remaining(cooldowns, app_type, providers.last().id, now)) {
            (Some(a), Some(b)) => if b < a {
                Some(b)
            } else {
                Some(a)
            },
            (None, b) => b,
            (a, None) => a,
        }
    }
}

/// How a request asks a circuit breaker for its permit.
#[derive(Debug, Clone, Copy, PartialEq, Eq, Structural)]
pub enum PermitRequest {
    /// The breaker only keeps count.
    Tracking,
    /// The breaker may refuse.
    Gated,
}

/// After how many failures a provider counts as unhealthy where nothing is configured.
pub const DEFAULT_FAILURE_THRESHOLD: u32 = 5;

/// What the store is told of the health of a provider.
#[verifier::ext_equal]
pub struct HealthUpdateView {
    pub provider_id: Seq<char>,
    pub app_type: Seq<char>,
    pub success: bool,
    pub error_msg: Option<Seq<char>>,
    pub failure_threshold: u32,
}

/// What the store is told of the health of a provider.
#[derive(Debug, PartialEq, Eq)]
pub struct HealthUpdate {
    pub provider_id: String,
    pub app_type: String,
    pub success: bool,
    pub error_msg: Option<String>,
    pub failure_threshold: u32,
}

impl View for HealthUpdate {
    type V = HealthUpdateView;

    open spec fn view(&self) -> HealthUpdateView {
        HealthUpdateView {
            provider_id: self.provider_id@,
            app_type: self.app_type@,
            success: self.success,
            error_msg: self.error_msg.deep_view(),
            failure_threshold: self.failure_threshold,
        }
    }
}

/// The circuit breakers once a key has one: what it had stays.
pub open spec fn with_breaker<B>(
    breakers: Map<Seq<char>, B>,
    key: Seq<char>,
    fresh: B,
) -> Map<Seq<char>, B> {
    if breakers.contains_key(key) {
        breakers
    } else {
        breakers.insert(key, fresh)
    }
}

/// What the router keeps between requests.
pub struct RouterView<B> {
    pub breakers: Map<Seq<char>, B>,
    pub cooldowns: Map<Seq<char>, u128>,
}

/// Chooses providers for requests. Circuit breakers and cooldowns are kept under the key of a
/// provider; a cooldown is the time, in nanoseconds, at which it runs out.
pub struct ProviderRouter<B> {
    pub circuit_breakers: KeyedMap<B>,
    pub rate_limit_cooldowns: KeyedMap<u128>,
}

impl<B> View for ProviderRouter<B> {
    type V = RouterView<B>;

    open spec fn view(&self) -> RouterView<B> {
        RouterView { breakers: self.circuit_breakers@, cooldowns: self.rate_limit_cooldowns@ }
    }
}

impl<B> ProviderRouter<B> {
    /// A router that has seen no request.
    pub fn new() -> (router: ProviderRouter<B>)
        ensures
            router@.breakers == Map::<Seq<char>, B>::empty(),
            router@.cooldowns == Map::<Seq<char>, u128>::empty(),
    {
        ProviderRouter { circuit_breakers: KeyedMap::new(), rate_limit_cooldowns: KeyedMap::new() }
    }

    /// Whether a provider is cooling down. A cooldown that has run out is dropped.
    pub fn is_provider_rate_limited(&mut self, provider_id: &str, app_type: &str, now: u64) -> (res:
        bool)
        ensures
            res == cooling(old(self)@.cooldowns, circuit_key(app_type@, provider_id@), now),
            final(self)@.cooldowns == looked_at(
                old(self)@.cooldowns,
                circuit_key(app_type@, provider_id@),
                now,
            ),
            final(self)@.breakers == old(self)@.breakers,
    {
        let key = make_circuit_key(app_type, provider_id);
        let limited = match self.rate_limit_cooldowns.get(key.as_str()) {
            Some(until) => *until > now as u128,
            None => false,
        };
        if !limited {
            let _ = self.rate_limit_cooldowns.remove(key.as_str());
        }
        limited
    }

    /// Starts a provider's cooldown, unless one is running. How long it has still to go, in
    /// nanoseconds; 0 where the strategy knows no cooldowns.
    pub fn mark_provider_rate_limited(
        &mut self,
        provider_id: &str,
        app_type: &str,
        policy: FailoverPolicy,
        now: u64,
    ) -> (delay: u128)
        ensures
            final(self)@.cooldowns == marked(
                old(self)@.cooldowns,
                circuit_key(app_type@, provider_id@),
                policy,
                now,
            ),
            delay == (if policy.strategy is StickyRotation {
                final(self)@.cooldowns[circuit_key(app_type@, provider_id@)] - now
            } else {
                0
            }),
            final(self)@.breakers == old(self)@.breakers,
    {
        if policy.strategy != FailoverStrategy::StickyRotation {
            return 0;
        }
        let capped = if policy.rate_limit_cooldown_seconds
            <= policy.max_rate_limit_cooldown_seconds {
            policy.rate_limit_cooldown_seconds
        } else {
            policy.max_rate_limit_cooldown_seconds
        };
        let seconds = if capped == 0 {
            1
        } else {
            capped
        };
        assert(seconds as u128 * NANOS_PER_SECOND <= 4294967295 * 1000000000) by (nonlinear_arith)
            requires
                seconds <= 4294967295,
                NANOS_PER_SECOND == 1000000000,
        ;
        let duration: u128 = seconds as u128 * NANOS_PER_SECOND;
        let key = make_circuit_key(app_type, provider_id);
        match self.rate_limit_cooldowns.get(key.as_str()) {
            Some(until) => {
                if *until > now as u128 {
                    return *until - now as u128;
                }
            },
            None => {},
        }
        self.rate_limit_cooldowns.insert(key.as_str(), now as u128 + duration);
        duration
    }

    /// Whether a candidate is passed over because of its rate limit, so that its circuit breaker
    /// is not asked.
    pub fn passes_over(
        &self,
        app: &App,
        strategy: FailoverStrategy,
        provider_id: &str,
        now: u64,
    ) -> (res: bool)
        ensures
            res == passed_over(app@, strategy, self@.cooldowns, provider_id@, now),
    {
        if strategy != FailoverStrategy::StickyRotation || app.kind() == AppType::ClaudeDesktop {
            return false;
        }
        let key = make_circuit_key(app.name(), provider_id);
        match self.rate_limit_cooldowns.get(key.as_str()) {
            Some(until) => *until > now as u128,
            None => false,
        }
    }

    /// Chooses the providers of a planned route. `available` says of each candidate whether its
    /// circuit breaker lets requests through.
    pub fn select_providers(
        &mut self,
        app: &App,
        strategy: FailoverStrategy,
        plan: &RoutePlan,
        available: &Vec<bool>,
        now: u64,
    ) -> (res: Result<Vec<Provider>, AppError>)
        requires
            available@.len() >= route_candidates(plan@).len(),
        ensures
            match res {
                Ok(providers) => routed(
                    app@,
                    strategy,
                    old(self)@.cooldowns,
                    plan@,
                    available@,
                    now,
                ) == Ok::<Seq<ProviderView>, AppError>(provider_views(providers@)),
                Err(error) => routed(
                    app@,
                    strategy,
                    old(self)@.cooldowns,
                    plan@,
                    available@,
                    now,
                ) == Err::<Seq<ProviderView>, AppError>(error),
            },
            final(self)@.cooldowns == after_routing(
                app@,
                strategy,
                old(self)@.cooldowns,
                route_candidates(plan@),
                now,
            ),
            final(self)@.breakers == old(self)@.breakers,
    {
        let mut result: Vec<Provider> = Vec::new();
        assert(provider_views(result@) =~= Seq::<ProviderView>::empty());
        let all = match plan {
            RoutePlan::Nowhere => {
                return Err(AppError::NoProvidersConfigured);
            },
            RoutePlan::Single(provider) => {
                let copy = provider.clone();
                result.push(copy);
                assert(provider_views(result@) =~= seq![provider@]);
                return Ok(result);
            },
            RoutePlan::Candidates(all) => all,
        };
        let ghost views = provider_views(all@);
        let ghost cooldowns = self@.cooldowns;
        let ghost breakers = self@.breakers;
        let desktop = app.kind() == AppType::ClaudeDesktop;
        let mut i: usize = 0;
        while i < all.len()
            invariant
                i <= all.len(),
                available@.len() >= all@.len(),
                views == provider_views(all@),
                desktop == (app@.kind is ClaudeDesktop),
                provider_views(result@) == tried(
                    app@,
                    strategy,
                    cooldowns,
                    views.take(i as int),
                    available@,
                    now,
                ),
                self@.cooldowns == after_routing(
                    app@,
                    strategy,
                    cooldowns,
                    views.take(i as int),
                    now,
                ),
                forall|key: Seq<char>| cooling(self@.cooldowns, key, now) == cooling(cooldowns, key, now),
                self@.breakers == breakers,
            decreases all.len() - i,
        {
            proof {
                assert(views.take(i + 1).drop_last() =~= views.take(i as int));
                assert(views.take(i + 1).last() == all@[i as int]@);
            }
            let limited = strategy == FailoverStrategy::StickyRotation
                && self.is_provider_rate_limited(all[i].id.as_str(), app.name(), now);
            if (!limited || desktop) && (available[i] || desktop) {
                let ghost before = provider_views(result@);
                let copy = all[i].clone();
                result.push(copy);
                assert(provider_views(result@) =~= before.push(all@[i as int]@));
            }
            i += 1;
        }
        assert(views.take(views.len() as int) =~= views);
        if result.len() > 0 {
            Ok(result)
        } else if all.len() > 0 {
            Err(AppError::AllProvidersCircuitOpen)
        } else {
            Err(AppError::NoProvidersConfigured)
        }
    }

    /// How long it is, in nanoseconds, until the first of some providers has cooled down.
    /// Cooldowns that have run out are dropped.
    pub fn earliest_rate_limit_retry_delay(
        &mut self,
        providers: &Vec<Provider>,
        app_type: &str,
        now: u64,
    ) -> (res: Option<u128>)
        ensures
            res == earliest(old(self)@.cooldowns, app_type@, provider_views(providers@), now),
            final(self)@.cooldowns == running(old(self)@.cooldowns, now),
            final(self)@.breakers == old(self)@.breakers,
    {
        self.drop_finished(now);
        let ghost views = provider_views(providers@);
        let ghost cooldowns = old(self)@.cooldowns;
        let mut best: Option<u128> = None;
        let mut i: usize = 0;
        while i < providers.len()
            invariant
                i <= providers.len(),
                views == provider_views(providers@),
                self@.cooldowns == running(cooldowns, now),
                self@.breakers == old(self)@.breakers,
                best == earliest(cooldowns, app_type@, views.take(i as int), now),
            decreases providers.len() - i,
        {
            proof {
                assert(views.take(i + 1).drop_last() =~= views.take(i as int));
                assert(views.take(i + 1).last() == providers@[i as int]@);
            }
            let key = make_circuit_key(app_type, providers[i].id.as_str());
            if let Some(until) = self.rate_limit_cooldowns.get(key.as_str()) {
                assert(cooling(cooldowns, key@, now));
                let delay: u128 = *until - now as u128;
                best = match best {
                    Some(shortest) => if delay < shortest {
                        Some(delay)
                    } else {
                        Some(shortest)
                    },
                    None => Some(delay),
                };
            } else {
                assert(!cooling(cooldowns, key@, now));
            }
            i += 1;
        }
        assert(views.take(views.len() as int) =~= views);
        best
    }

    /// Drops the cooldowns that have run out.
    fn drop_finished(&mut self, now: u64)
        ensures
            final(self)@.cooldowns == running(old(self)@.cooldowns, now),
            final(self)@.breakers == old(self)@.breakers,
    {
        let ghost cooldowns = self@.cooldowns;
        let keys = self.rate_limit_cooldowns.keys_with_prefix("");
        let ghost all = keys.deep_view();
        proof {
            reveal_strlit("");
            assert forall|key: Seq<char>| cooldowns.contains_key(key) implies all.contains(key) by {
                assert(""@ =~= Seq::<char>::empty());
                assert(""@.is_prefix_of(key));
                assert(keys_under(cooldowns, ""@).contains(key));
                assert(all.to_set().contains(key));
            }
        }
        let mut i: usize = 0;
        while i < keys.len()
            invariant
                i <= keys.len(),
                all == keys.deep_view(),
                self@.breakers == old(self)@.breakers,
                forall|key: Seq<char>| #[trigger]
                    self@.cooldowns.contains_key(key) ==> cooldowns.contains_key(key)
                        && self@.cooldowns[key] == cooldowns[key],
                forall|key: Seq<char>| cooling(cooldowns, key, now) ==> #[trigger]
                    self@.cooldowns.contains_key(key),
                forall|k: int|
                    0 <= k < i ==> (self@.cooldowns.contains_key(#[trigger] all[k]) ==> cooling(
                        cooldowns,
                        all[k],
                        now,
                    )),
            decreases keys.len() - i,
        {
            let key = keys[i].as_str();
            assert(all[i as int] == key@);
            let ghost before = self@.cooldowns;
            let over = match self.rate_limit_cooldowns.get(key) {
                Some(until) => *until <= now as u128,
                None => false,
            };
            if over {
                let _ = self.rate_limit_cooldowns.remove(key);
                assert(!cooling(cooldowns, key@, now)) by {
                    assert(before.contains_key(key@));
                }
            }
            assert forall|k: Seq<char>| #[trigger] self@.cooldowns.contains_key(k) implies cooldowns.contains_key(
                k,
            ) && self@.cooldowns[k] == cooldowns[k] by {
                assert(before.contains_key(k));
            }
            assert forall|k: Seq<char>| cooling(cooldowns, k, now) implies #[trigger]
                self@.cooldowns.contains_key(k) by {
                assert(before.contains_key(k));
            }
            i += 1;
        }
        assert forall|key: Seq<char>| #[trigger] self@.cooldowns.contains_key(key) implies cooling(
            cooldowns,
            key,
            now,
        ) by {
            assert(all.contains(key));
            let k = choose|k: int| 0 <= k < all.len() && all[k] == key;
            assert(all[k] == key);
        }
        assert(self@.cooldowns =~= running(cooldowns, now));
    }

    /// Forgets the circuit breakers and cooldowns of an application.
    pub fn reset_app_runtime_state(&mut self, app_type: &str)
        ensures
            final(self)@.breakers == without_prefix(old(self)@.breakers, app_prefix(app_type@)),
            final(self)@.cooldowns == without_prefix(old(self)@.cooldowns, app_prefix(app_type@)),
    {
        let prefix = concat2(app_type, ":");
        self.circuit_breakers.remove_prefix(prefix.as_str());
        self.rate_limit_cooldowns.remove_prefix(prefix.as_str());
    }

    /// Forgets the circuit breaker and the cooldown of a provider.
    pub fn reset_provider_breaker(&mut self, provider_id: &str, app_type: &str)
        ensures
            final(self)@.breakers == old(self)@.breakers.remove(
                circuit_key(app_type@, provider_id@),
            ),
            final(self)@.cooldowns == old(self)@.cooldowns.remove(
                circuit_key(app_type@, provider_id@),
            ),
    {
        let key = make_circuit_key(app_type, provider_id);
        let _ = self.circuit_breakers.remove(key.as_str());
        let _ = self.rate_limit_cooldowns.remove(key.as_str());
    }

    /// The circuit breaker of a key.
    pub fn circuit_breaker(&self, key: &str) -> (res: Option<&B>)
        ensures
            match res {
                Some(breaker) => self@.breakers.contains_key(key@) && self@.breakers[key@]
                    == *breaker,
                None => !self@.breakers.contains_key(key@),
            },
    {
        self.circuit_breakers.get(key)
    }

    /// Keeps a new circuit breaker under a key that has none; one that is there stays.
    pub fn get_or_create_circuit_breaker(&mut self, key: &str, fresh: B)
        ensures
            final(self)@.breakers == with_breaker(old(self)@.breakers, key@, fresh),
            final(self)@.cooldowns == old(self)@.cooldowns,
    {
        if self.circuit_breakers.get(key).is_none() {
            self.circuit_breakers.insert(key, fresh);
        }
    }

    /// The keys of an application's circuit breakers, whose settings change with the
    /// application's.
    pub fn app_breaker_keys(&self, app_type: &str) -> (keys: Vec<String>)
        ensures
            keys.deep_view().no_duplicates(),
            keys.deep_view().to_set() == keys_under(self@.breakers, app_prefix(app_type@)),
    {
        let prefix = concat2(app_type, ":");
        self.circuit_breakers.keys_with_prefix(prefix.as_str())
    }

    /// How a request asks the circuit breaker of its provider for its permit: the breaker may
    /// refuse. A provider without a breaker gets one.
    pub fn allow_provider_request(&mut self, provider_id: &str, app_type: &str, fresh: B) -> (request:
        PermitRequest)
        ensures
            request == PermitRequest::Gated,
            final(self)@.breakers == with_breaker(
                old(self)@.breakers,
                circuit_key(app_type@, provider_id@),
                fresh,
            ),
            final(self)@.cooldowns == old(self)@.cooldowns,
    {
        let key = make_circuit_key(app_type, provider_id);
        self.get_or_create_circuit_breaker(key.as_str(), fresh);
        PermitRequest::Gated
    }

    /// How a request asks the circuit breaker of its provider for its permit: the breaker may
    /// refuse, unless its gate is bypassed. A provider without a breaker gets one.
    pub fn begin_provider_request(
        &mut self,
        provider_id: &str,
        app_type: &str,
        bypass_circuit_gate: bool,
        fresh: B,
    ) -> (request: PermitRequest)
        ensures
            request == (if bypass_circuit_gate {
                PermitRequest::Tracking
            } else {
                PermitRequest::Gated
            }),
            final(self)@.breakers == with_breaker(
                old(self)@.breakers,
                circuit_key(app_type@, provider_id@),
                fresh,
            ),
            final(self)@.cooldowns == old(self)@.cooldowns,
    {
        let key = make_circuit_key(app_type, provider_id);
        self.get_or_create_circuit_breaker(key.as_str(), fresh);
        if bypass_circuit_gate {
            PermitRequest::Tracking
        } else {
            PermitRequest::Gated
        }
    }

    /// What the store is told once the circuit breaker has taken note of the outcome of a
    /// request: nothing, unless the breaker counted it.
    pub fn record_result(
        &self,
        provider_id: &str,
        app_type: &str,
        counted: bool,
        success: bool,
        error_msg: Option<String>,
        configured_threshold: Option<u32>,
    ) -> (update: Option<HealthUpdate>)
        ensures
            update is Some == counted,
            update matches Some(update) ==> update@ == (HealthUpdateView {
                provider_id: provider_id@,
                app_type: app_type@,
                success,
                error_msg: error_msg.deep_view(),
                failure_threshold: match configured_threshold {
                    Some(threshold) => threshold,
                    None => DEFAULT_FAILURE_THRESHOLD,
                },
            }),
    {
        if !counted {
            return None;
        }
        let failure_threshold = match configured_threshold {
            Some(threshold) => threshold,
            None => DEFAULT_FAILURE_THRESHOLD,
        };
        Some(
            HealthUpdate {
                provider_id: provider_id.to_owned(),
                app_type: app_type.to_owned(),
                success,
                error_msg,
                failure_threshold,
            },
        )
    }
}

/// Without failover a request goes to the current provider and nowhere else, whatever the
/// queue, the circuit breakers and the cooldowns say.
pub proof fn law_without_failover_only_the_current_provider(
    app: AppView,
    strategy: FailoverStrategy,
    current_id: Option<Seq<char>>,
    current: ProviderView,
    providers: Seq<ProviderView>,
    queue: Seq<Seq<char>>,
    cooldowns: Map<Seq<char>, u128>,
    available: Seq<bool>,
    now: u64,
)
    ensures
        routed(
            app,
            strategy,
            cooldowns,
            planned(app.kind, false, strategy, current_id, Some(current), providers, queue),
            available,
            now,
        ) == Ok::<Seq<ProviderView>, AppError>(seq![current]),
{
}

/// A current provider that must not be retried with stays the only one, even where failover is
/// left on and others are queued.
pub proof fn law_an_unretriable_current_provider_stays_alone(
    app: AppType,
    failover: bool,
    strategy: FailoverStrategy,
    current_id: Option<Seq<char>>,
    current: ProviderView,
    providers: Seq<ProviderView>,
    queue: Seq<Seq<char>>,
)
    requires
        !supports_failover(app, current),
    ensures
        planned(app, failover, strategy, current_id, Some(current), providers, queue)
            == Route::Single(current),
{
}

/// Every candidate may be retried with, and stands in the list that it was taken from.
pub proof fn law_candidates_come_from_the_queue(
    app: AppType,
    providers: Seq<ProviderView>,
    ids: Seq<Seq<char>>,
    i: int,
)
    requires
        0 <= i < candidates(app, providers, ids).len(),
    ensures
        supports_failover(app, candidates(app, providers, ids)[i]),
        exists|k: int|
            0 <= k < ids.len() && find_provider(providers, #[trigger] ids[k]) == Some(
                candidates(app, providers, ids)[i],
            ),
    decreases ids.len(),
{
    if ids.len() > 0 {
        let before = candidates(app, providers, ids.drop_last());
        if i < before.len() {
            law_candidates_come_from_the_queue(app, providers, ids.drop_last(), i);
            let k = choose|k: int|
                0 <= k < ids.drop_last().len() && find_provider(
                    providers,
                    #[trigger] ids.drop_last()[k],
                ) == Some(before[i]);
            assert(ids[k] == ids.drop_last()[k]);
        } else {
            assert(find_provider(providers, ids[ids.len() - 1]) == Some(
                candidates(app, providers, ids)[i],
            ));
        }
    }
}

/// Candidates stand in the order of the list that they were taken from.
pub proof fn law_candidates_keep_the_order(
    app: AppType,
    providers: Seq<ProviderView>,
    a: Seq<Seq<char>>,
    b: Seq<Seq<char>>,
)
    ensures
        candidates(app, providers, a + b) == candidates(app, providers, a) + candidates(
            app,
            providers,
            b,
        ),
    decreases b.len(),
{
    if b.len() == 0 {
        assert(a + b =~= a);
        assert(candidates(app, providers, a) + candidates(app, providers, b)
            =~= candidates(app, providers, a));
    } else {
        assert((a + b).drop_last() =~= a + b.drop_last());
        assert((a + b).last() == b.last());
        law_candidates_keep_the_order(app, providers, a, b.drop_last());
        assert(candidates(app, providers, a + b) =~= candidates(app, providers, a)
            + candidates(app, providers, b));
    }
}

proof fn lemma_position_bounds(ids: Seq<Seq<char>>, id: Seq<char>)
    ensures
        0 <= position_of(ids, id) <= ids.len(),
        position_of(ids, id) < ids.len() ==> ids[position_of(ids, id)] == id,
        ids.contains(id) ==> position_of(ids, id) < ids.len(),
    decreases ids.len(),
{
    if ids.len() > 0 && ids[0] != id {
        lemma_position_bounds(ids.drop_first(), id);
        if ids.contains(id) {
            let k = choose|k: int| 0 <= k < ids.len() && ids[k] == id;
            assert(ids.drop_first()[k - 1] == id);
        }
    }
}

/// The rotation starts at the current provider, where that is queued, and tries the whole queue,
/// each entry as often as it is queued.
pub proof fn law_rotation_tries_the_whole_queue(queue: Seq<Seq<char>>, current: Seq<char>)
    ensures
        ({
            let order = trial_order(queue, FailoverStrategy::StickyRotation, Some(current));
            &&& order.to_multiset() == queue.to_multiset()
            &&& queue.contains(current) ==> order[0] == current
        }),
{
    broadcast use vstd::seq_lib::group_to_multiset_ensures;

    lemma_position_bounds(queue, current);
    let i = position_of(queue, current);
    if i < queue.len() {
        vstd::seq_lib::lemma_multiset_commutative(queue.skip(i), queue.take(i));
        vstd::seq_lib::lemma_multiset_commutative(queue.take(i), queue.skip(i));
        assert(queue.take(i) + queue.skip(i) =~= queue);
        assert(trial_order(queue, FailoverStrategy::StickyRotation, Some(current)).to_multiset()
            =~= queue.to_multiset());
    }
}

/// The desktop client keeps every candidate, limited or not: the wait for it goes on within the
/// request.
pub proof fn law_desktop_keeps_every_candidate(
    app: AppView,
    strategy: FailoverStrategy,
    cooldowns: Map<Seq<char>, u128>,
    providers: Seq<ProviderView>,
    available: Seq<bool>,
    now: u64,
)
    requires
        app.kind is ClaudeDesktop,
    ensures
        tried(app, strategy, cooldowns, providers, available, now) == providers,
    decreases providers.len(),
{
    if providers.len() > 0 {
        law_desktop_keeps_every_candidate(
            app,
            strategy,
            cooldowns,
            providers.drop_last(),
            available,
            now,
        );
        assert(providers =~= providers.drop_last().push(providers.last()));
    } else {
        assert(providers =~= Seq::empty());
    }
}

/// A provider that was marked is limited from then until its cooldown runs out, and not after.
pub proof fn law_a_marked_provider_cools_down(
    cooldowns: Map<Seq<char>, u128>,
    key: Seq<char>,
    policy: FailoverPolicy,
    now: u64,
    later: u64,
)
    requires
        policy.strategy is StickyRotation,
        !cooling(cooldowns, key, now),
    ensures
        cooling(marked(cooldowns, key, policy, now), key, later) == (later < now + cooldown_nanos(
            policy,
        )),
        cooldown_nanos(policy) >= NANOS_PER_SECOND,
{
    let seconds = cooldown_seconds(policy);
    assert(NANOS_PER_SECOND <= seconds as u128 * NANOS_PER_SECOND <= 4294967295 * 1000000000)
        by (nonlinear_arith)
        requires
            1 <= seconds <= 4294967295,
            NANOS_PER_SECOND == 1000000000,
    ;
}

/// Marking a provider again while it cools down does not prolong its cooldown.
pub proof fn law_marking_again_does_not_prolong(
    cooldowns: Map<Seq<char>, u128>,
    key: Seq<char>,
    policy: FailoverPolicy,
    now: u64,
    later: u64,
)
    requires
        cooling(marked(cooldowns, key, policy, now), key, later),
    ensures
        marked(marked(cooldowns, key, policy, now), key, policy, later) == marked(
            cooldowns,
            key,
            policy,
            now,
        ),
{
}

proof fn lemma_key_colon(app_type: Seq<char>, rest: Seq<char>)
    requires
        !app_type.contains(':'),
    ensures
        find_char(app_type + ":"@ + rest, ':') == app_type.len(),
{
    reveal_strlit(":");
    let key = app_type + ":"@ + rest;
    assert forall|k: int| 0 <= k < app_type.len() implies key[k] != ':' by {
        assert(key[k] == app_type[k]);
    }
    assert(key[app_type.len() as int] == ':');
    lemma_find_char_is(key, ':', app_type.len() as int);
}

/// A key tells which application it belongs to, and two providers have two keys. Names of
/// applications hold no colon.
pub proof fn law_keys_tell_providers_apart(
    app_a: Seq<char>,
    id_a: Seq<char>,
    app_b: Seq<char>,
    id_b: Seq<char>,
)
    requires
        !app_a.contains(':'),
        !app_b.contains(':'),
    ensures
        app_of_key(circuit_key(app_a, id_a)) == app_a,
        circuit_key(app_a, id_a) == circuit_key(app_b, id_b) ==> app_a == app_b && id_a == id_b,
{
    reveal_strlit(":");
    lemma_key_colon(app_a, id_a);
    lemma_key_colon(app_b, id_b);
    let key_a = circuit_key(app_a, id_a);
    let key_b = circuit_key(app_b, id_b);
    assert(key_a.take(app_a.len() as int) =~= app_a);
    assert(key_b.take(app_b.len() as int) =~= app_b);
    assert(key_a.skip(app_a.len() as int + 1) =~= id_a);
    assert(key_b.skip(app_b.len() as int + 1) =~= id_b);
}

/// Resetting an application forgets all of its providers and none of another application, even
/// where one application's name begins with the other's.
pub proof fn law_reset_spares_other_applications<V>(
    map: Map<Seq<char>, V>,
    app_type: Seq<char>,
    other: Seq<char>,
    id: Seq<char>,
)
    requires
        !app_type.contains(':'),
        !other.contains(':'),
    ensures
        ({
            let after = without_prefix(map, app_prefix(app_type));
            &&& !after.contains_key(circuit_key(app_type, id))
            &&& other != app_type ==> after.contains_key(circuit_key(other, id))
                == map.contains_key(circuit_key(other, id))
            &&& other != app_type && map.contains_key(circuit_key(other, id))
                ==> after[circuit_key(other, id)] == map[circuit_key(other, id)]
        }),
{
    reveal_strlit(":");
    let prefix = app_prefix(app_type);
    let own = circuit_key(app_type, id);
    assert(prefix =~= own.take(prefix.len() as int));
    if other != app_type {
        let key = circuit_key(other, id);
        if prefix.is_prefix_of(key) {
            lemma_key_colon(other, id);
            lemma_key_colon(app_type, key.skip(prefix.len() as int));
            assert(key =~= app_type + ":"@ + key.skip(prefix.len() as int)) by {
                assert(prefix =~= key.take(prefix.len() as int));
                assert(key =~= key.take(prefix.len() as int) + key.skip(prefix.len() as int));
            }
            assert(key.take(other.len() as int) =~= other);
            assert(key.take(app_type.len() as int) =~= app_type) by {
                assert(prefix.take(app_type.len() as int) =~= app_type);
            }
            assert(false);
        }
    }
}

} // verus!
