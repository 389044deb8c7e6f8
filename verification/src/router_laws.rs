//! What holds of every route that the router chooses, and of what it keeps between requests.

use crate::keyed::{keys_under, without_prefix};
use crate::picking::{lemma_picked_next, lemma_picked_none, picked};
use crate::provider::{find_provider, supports_failover, AppType, AppView, ProviderView};
use crate::router::{
    after_routing, app_of_key, app_prefix, candidates, circuit_key, cooldown_nanos, cooling,
    earliest, looked_at, marked, passed_over, planned, position_of, remaining, routed, running,
    tried, trial_order, with_breaker, AppError, FailoverPolicy, FailoverStrategy, Route,
};
use vstd::prelude::*;
use vstd::string::*;

verus! {

/// Whether a provider is limited at a time: it has a cooldown that has not run out.
pub open spec fn limited(
    cooldowns: Map<Seq<char>, u128>,
    app_type: Seq<char>,
    id: Seq<char>,
    now: u64,
) -> bool {
    let key = app_type + seq![':'] + id;
    cooldowns.contains_key(key) && cooldowns[key] > now
}

proof fn lemma_key(app_type: Seq<char>, id: Seq<char>)
    ensures
        circuit_key(app_type, id) == app_type + seq![':'] + id,
        app_prefix(app_type) == app_type + seq![':'],
{
    reveal_strlit(":");
    assert(":"@ =~= seq![':']);
}

/// The key of a provider is its application's name, a colon and its identifier; what all keys of
/// an application begin with is its name and the colon.
pub proof fn law_keys_are_made_of_name_and_identifier(app_type: Seq<char>, id: Seq<char>)
    ensures
        circuit_key(app_type, id) == app_type + seq![':'] + id,
        app_prefix(app_type) == app_type + seq![':'],
{
    lemma_key(app_type, id);
}

proof fn lemma_tried(
    app: AppView,
    strategy: FailoverStrategy,
    cooldowns: Map<Seq<char>, u128>,
    providers: Seq<ProviderView>,
    available: Seq<bool>,
    now: u64,
)
    requires
        !(app.kind is ClaudeDesktop),
    ensures
        picked(
            providers.len() as int,
            |i: int|
                available[i] && !(strategy is StickyRotation && limited(
                    cooldowns,
                    app.name,
                    providers[i].id,
                    now,
                )),
            |i: int| providers[i],
            tried(app, strategy, cooldowns, providers, available, now),
        ),
    decreases providers.len(),
{
    let keep = |i: int|
        available[i] && !(strategy is StickyRotation && limited(
            cooldowns,
            app.name,
            providers[i].id,
            now,
        ));
    let image = |i: int| providers[i];
    if providers.len() == 0 {
        lemma_picked_none(keep, image);
    } else {
        let front = providers.drop_last();
        let front_keep = |i: int|
            available[i] && !(strategy is StickyRotation && limited(
                cooldowns,
                app.name,
                front[i].id,
                now,
            ));
        let front_image = |i: int| front[i];
        lemma_tried(app, strategy, cooldowns, front, available, now);
        lemma_key(app.name, providers.last().id);
        lemma_picked_next(
            front.len() as int,
            front_keep,
            front_image,
            tried(app, strategy, cooldowns, front, available, now),
            keep,
            image,
        );
    }
}

/// But for the desktop client, a request with candidates goes to exactly those whose circuit
/// breaker lets requests through and, where providers are tried in rotation, that are not limited,
/// in the order of the candidates. Where none is left there is an error: all are cut off, or there
/// were none.
pub proof fn law_a_request_goes_to_every_usable_candidate_and_no_other(
    app: AppView,
    strategy: FailoverStrategy,
    cooldowns: Map<Seq<char>, u128>,
    providers: Seq<ProviderView>,
    available: Seq<bool>,
    now: u64,
)
    requires
        !(app.kind is ClaudeDesktop),
        available.len() >= providers.len(),
    ensures
        ({
            let usable = |i: int|
                available[i] && !(strategy is StickyRotation && limited(
                    cooldowns,
                    app.name,
                    providers[i].id,
                    now,
                ));
            match routed(app, strategy, cooldowns, Route::Candidates(providers), available, now) {
                Ok(out) => out.len() > 0 && picked(
                    providers.len() as int,
                    usable,
                    |i: int| providers[i],
                    out,
                ),
                Err(error) => (forall|i: int| 0 <= i < providers.len() ==> !#[trigger] usable(i))
                    && (if providers.len() > 0 {
                    error is AllProvidersCircuitOpen
                } else {
                    error is NoProvidersConfigured
                }),
            }
        }),
{
    let usable = |i: int|
        available[i] && !(strategy is StickyRotation && limited(
            cooldowns,
            app.name,
            providers[i].id,
            now,
        ));
    let out = tried(app, strategy, cooldowns, providers, available, now);
    lemma_tried(app, strategy, cooldowns, providers, available, now);
    let image = |i: int| providers[i];
    assert(picked(providers.len() as int, usable, image, out));
    if out.len() == 0 {
        assert forall|i: int| 0 <= i < providers.len() implies !#[trigger] usable(i) by {
            let n = providers.len() as int;
            let at = choose|at: Seq<int>|
                crate::picking::picked_at(n, usable, image, out, at);
            if usable(i) {
                assert(at.contains(i));
            }
        }
    }
}

/// The desktop client gets every candidate in order, whatever circuit breakers and cooldowns say.
pub proof fn law_the_desktop_client_gets_every_candidate(
    app: AppView,
    strategy: FailoverStrategy,
    cooldowns: Map<Seq<char>, u128>,
    providers: Seq<ProviderView>,
    available: Seq<bool>,
    now: u64,
)
    requires
        app.kind is ClaudeDesktop,
    ensures
        routed(app, strategy, cooldowns, Route::Candidates(providers), available, now) == (
        if providers.len() > 0 {
            Ok::<Seq<ProviderView>, AppError>(providers)
        } else {
            Err(AppError::NoProvidersConfigured)
        }),
{
    crate::router::law_desktop_keeps_every_candidate(
        app,
        strategy,
        cooldowns,
        providers,
        available,
        now,
    );
}

/// A route of one provider leads there and nowhere else, and a route to nowhere is an error.
pub proof fn law_a_single_route_asks_nobody(
    app: AppView,
    strategy: FailoverStrategy,
    cooldowns: Map<Seq<char>, u128>,
    provider: ProviderView,
    available: Seq<bool>,
    now: u64,
)
    ensures
        routed(app, strategy, cooldowns, Route::Single(provider), available, now) == Ok::<
            Seq<ProviderView>,
            AppError,
        >(seq![provider]),
        routed(app, strategy, cooldowns, Route::Nowhere, available, now) == Err::<
            Seq<ProviderView>,
            AppError,
        >(AppError::NoProvidersConfigured),
{
}

proof fn lemma_position(ids: Seq<Seq<char>>, id: Seq<char>)
    ensures
        0 <= position_of(ids, id) <= ids.len(),
        forall|k: int| 0 <= k < position_of(ids, id) ==> #[trigger] ids[k] != id,
        position_of(ids, id) < ids.len() ==> ids[position_of(ids, id)] == id,
    decreases ids.len(),
{
    if ids.len() > 0 && ids[0] != id {
        lemma_position(ids.drop_first(), id);
        assert forall|k: int| 0 <= k < position_of(ids, id) implies #[trigger] ids[k] != id by {
            if k > 0 {
                assert(ids.drop_first()[k - 1] == ids[k]);
            }
        }
    }
}

/// The fixed order is that of the queue. The rotation goes round the queue once, from the first
/// place on at which the current provider stands; without a current provider in the queue it is
/// the order of the queue.
pub proof fn law_the_order_of_trial(queue: Seq<Seq<char>>, current: Option<Seq<char>>)
    ensures
        trial_order(queue, FailoverStrategy::FixedPriority, current) == queue,
        current is None || !queue.contains(current->0) ==> trial_order(
            queue,
            FailoverStrategy::StickyRotation,
            current,
        ) == queue,
        forall|first: int, k: int|
            #![trigger queue[first], queue[k]]
            current is Some && 0 <= first < queue.len() && queue[first] == current->0 && (forall|
                j: int,
            | 0 <= j < first ==> queue[j] != current->0) && 0 <= k < queue.len() ==> ({
                let order = trial_order(queue, FailoverStrategy::StickyRotation, current);
                &&& order.len() == queue.len()
                &&& k >= first ==> order[k - first] == queue[k]
                &&& k < first ==> order[queue.len() - first + k] == queue[k]
            }),
{
    if let Some(id) = current {
        lemma_position(queue, id);
        let p = position_of(queue, id);
        if !queue.contains(id) && p < queue.len() {
            assert(queue.contains(queue[p]));
        }
        assert forall|first: int, k: int|
            #![trigger queue[first], queue[k]]
            0 <= first < queue.len() && queue[first] == id && (forall|j: int|
                0 <= j < first ==> queue[j] != id) && 0 <= k < queue.len() implies ({
            let order = trial_order(queue, FailoverStrategy::StickyRotation, current);
            &&& order.len() == queue.len()
            &&& k >= first ==> order[k - first] == queue[k]
            &&& k < first ==> order[queue.len() - first + k] == queue[k]
        }) by {
            assert(p == first);
        }
    }
}

proof fn lemma_candidates(app: AppType, providers: Seq<ProviderView>, ids: Seq<Seq<char>>)
    ensures
        picked(
            ids.len() as int,
            |i: int|
                find_provider(providers, ids[i]) is Some && supports_failover(
                    app,
                    find_provider(providers, ids[i])->0,
                ),
            |i: int| find_provider(providers, ids[i])->0,
            candidates(app, providers, ids),
        ),
    decreases ids.len(),
{
    let keep = |i: int|
        find_provider(providers, ids[i]) is Some && supports_failover(
            app,
            find_provider(providers, ids[i])->0,
        );
    let image = |i: int| find_provider(providers, ids[i])->0;
    if ids.len() == 0 {
        lemma_picked_none(keep, image);
    } else {
        let front = ids.drop_last();
        lemma_candidates(app, providers, front);
        lemma_picked_next(
            front.len() as int,
            |i: int|
                find_provider(providers, front[i]) is Some && supports_failover(
                    app,
                    find_provider(providers, front[i])->0,
                ),
            |i: int| find_provider(providers, front[i])->0,
            candidates(app, providers, front),
            keep,
            image,
        );
    }
}

/// Where a request may go. With failover on, and no current provider that must not be retried
/// with, it may go to exactly the queued providers that are known and may be retried with, in the
/// order of trial. Otherwise it may go to the current provider alone, or nowhere without one.
pub proof fn law_where_a_request_may_go(
    app: AppType,
    failover: bool,
    strategy: FailoverStrategy,
    current_id: Option<Seq<char>>,
    current: Option<ProviderView>,
    providers: Seq<ProviderView>,
    queue: Seq<Seq<char>>,
)
    ensures
        ({
            let route = planned(app, failover, strategy, current_id, current, providers, queue);
            let order = trial_order(queue, strategy, current_id);
            if failover && (current is None || supports_failover(app, current->0)) {
                route matches Route::Candidates(out) && picked(
                    order.len() as int,
                    |i: int|
                        find_provider(providers, order[i]) is Some && supports_failover(
                            app,
                            find_provider(providers, order[i])->0,
                        ),
                    |i: int| find_provider(providers, order[i])->0,
                    out,
                )
            } else {
                match current {
                    Some(provider) => route == Route::Single(provider),
                    None => route == Route::Nowhere,
                }
            }
        }),
{
    lemma_candidates(app, providers, trial_order(queue, strategy, current_id));
}

/// A cooldown lasts as many seconds as the policy says, at most its maximum and at least one.
pub proof fn law_the_length_of_a_cooldown(policy: FailoverPolicy)
    ensures
        ({
            let wanted = policy.rate_limit_cooldown_seconds;
            let most = policy.max_rate_limit_cooldown_seconds;
            &&& wanted == 0 || most == 0 ==> cooldown_nanos(policy) == 1_000_000_000
            &&& 1 <= wanted <= most ==> cooldown_nanos(policy) == wanted * 1_000_000_000
            &&& 1 <= most <= wanted ==> cooldown_nanos(policy) == most * 1_000_000_000
        }),
{
    let seconds = crate::router::cooldown_seconds(policy);
    assert(seconds as u128 * 1000000000 <= 4294967295 * 1000000000) by (nonlinear_arith)
        requires
            seconds <= 4294967295,
    ;
}

/// Marking a provider as rate limited starts a cooldown of it where providers are tried in
/// rotation and none is running, and touches no other provider.
pub proof fn law_what_marking_changes(
    cooldowns: Map<Seq<char>, u128>,
    key: Seq<char>,
    policy: FailoverPolicy,
    now: u64,
    other: Seq<char>,
)
    ensures
        ({
            let after = marked(cooldowns, key, policy, now);
            let running = cooldowns.contains_key(key) && cooldowns[key] > now;
            &&& policy.strategy is FixedPriority ==> after == cooldowns
            &&& policy.strategy is StickyRotation && running ==> after == cooldowns
            &&& policy.strategy is StickyRotation && !running ==> after.contains_key(key)
                && after[key] == now + cooldown_nanos(policy)
            &&& other != key ==> after.contains_key(other) == cooldowns.contains_key(other)
            &&& other != key && cooldowns.contains_key(other) ==> after[other]
                == cooldowns[other]
        }),
{
    let seconds = crate::router::cooldown_seconds(policy);
    assert(seconds as u128 * 1000000000 <= 4294967295 * 1000000000) by (nonlinear_arith)
        requires
            seconds <= 4294967295,
    ;
}

/// A cooldown runs until its time has come, and no longer.
pub proof fn law_when_a_cooldown_runs(
    cooldowns: Map<Seq<char>, u128>,
    key: Seq<char>,
    now: u64,
    other: Seq<char>,
)
    ensures
        cooling(cooldowns, key, now) == (cooldowns.contains_key(key) && cooldowns[key] > now),
        running(cooldowns, now).contains_key(key) == (cooldowns.contains_key(key)
            && cooldowns[key] > now),
        running(cooldowns, now).contains_key(key) ==> running(cooldowns, now)[key]
            == cooldowns[key],
        looked_at(cooldowns, key, now).contains_key(key) == (cooldowns.contains_key(key)
            && cooldowns[key] > now),
        other != key || (cooldowns.contains_key(key) && cooldowns[key] > now) ==> looked_at(
            cooldowns,
            key,
            now,
        ).contains_key(other) == cooldowns.contains_key(other),
        looked_at(cooldowns, key, now).contains_key(other) ==> looked_at(cooldowns, key, now)[other]
            == cooldowns[other],
{
}

/// Only in rotation is a candidate passed over, only while it is limited, and never for the
/// desktop client.
pub proof fn law_who_is_passed_over(
    app: AppView,
    strategy: FailoverStrategy,
    cooldowns: Map<Seq<char>, u128>,
    id: Seq<char>,
    now: u64,
)
    ensures
        passed_over(app, strategy, cooldowns, id, now) == (strategy is StickyRotation && !(
        app.kind is ClaudeDesktop) && limited(cooldowns, app.name, id, now)),
{
    lemma_key(app.name, id);
}

/// Choosing a route forgets the cooldowns of its candidates that have run out, where providers are
/// tried in rotation, and no other cooldown.
pub proof fn law_routing_forgets_only_what_has_run_out(
    app: AppView,
    strategy: FailoverStrategy,
    cooldowns: Map<Seq<char>, u128>,
    providers: Seq<ProviderView>,
    now: u64,
    key: Seq<char>,
)
    ensures
        ({
            let after = after_routing(app, strategy, cooldowns, providers, now);
            let candidate = exists|i: int|
                0 <= i < providers.len() && key == app.name + seq![':'] + (
                #[trigger] providers[i]).id;
            &&& after.contains_key(key) == (cooldowns.contains_key(key) && (cooldowns[key] > now
                || strategy is FixedPriority || !candidate))
            &&& after.contains_key(key) ==> after[key] == cooldowns[key]
        }),
    decreases providers.len(),
{
    if providers.len() > 0 {
        let front = providers.drop_last();
        law_routing_forgets_only_what_has_run_out(app, strategy, cooldowns, front, now, key);
        lemma_key(app.name, providers.last().id);
        let before = exists|i: int|
            0 <= i < front.len() && key == app.name + seq![':'] + (#[trigger] front[i]).id;
        let candidate = exists|i: int|
            0 <= i < providers.len() && key == app.name + seq![':'] + (#[trigger] providers[i]).id;
        if before {
            let i = choose|i: int|
                0 <= i < front.len() && key == app.name + seq![':'] + (#[trigger] front[i]).id;
            assert(providers[i] == front[i]);
        }
        if candidate {
            let i = choose|i: int|
                0 <= i < providers.len() && key == app.name + seq![':'] + (
                #[trigger] providers[i]).id;
            if i < front.len() {
                assert(front[i] == providers[i]);
            }
        }
        assert(providers[providers.len() - 1] == providers.last());
        assert(candidate == (before || key == app.name + seq![':'] + providers.last().id));
    }
}

/// The delay before a retry is that of the provider that is limited for the shortest time; there
/// is none where no provider is limited.
pub proof fn law_the_retry_delay_is_the_shortest(
    cooldowns: Map<Seq<char>, u128>,
    app_type: Seq<char>,
    providers: Seq<ProviderView>,
    now: u64,
)
    ensures
        match earliest(cooldowns, app_type, providers, now) {
            None => forall|i: int|
                0 <= i < providers.len() ==> !limited(
                    cooldowns,
                    app_type,
                    (#[trigger] providers[i]).id,
                    now,
                ),
            Some(delay) => (forall|i: int|
                0 <= i < providers.len() && limited(
                    cooldowns,
                    app_type,
                    (#[trigger] providers[i]).id,
                    now,
                ) ==> delay <= cooldowns[app_type + seq![':'] + providers[i].id] - now) && (exists|
                i: int,
            |
                0 <= i < providers.len() && limited(
                    cooldowns,
                    app_type,
                    (#[trigger] providers[i]).id,
                    now,
                ) && delay == cooldowns[app_type + seq![':'] + providers[i].id] - now),
        },
    decreases providers.len(),
{
    if providers.len() > 0 {
        let front = providers.drop_last();
        let last = providers.last();
        law_the_retry_delay_is_the_shortest(cooldowns, app_type, front, now);
        lemma_key(app_type, last.id);
        assert(forall|i: int| 0 <= i < front.len() ==> #[trigger] providers[i] == front[i]);
        assert(providers[providers.len() - 1] == last);
        let before = earliest(cooldowns, app_type, front, now);
        if before is Some {
            let i = choose|i: int|
                0 <= i < front.len() && limited(cooldowns, app_type, (#[trigger] front[i]).id, now)
                    && before->0 == cooldowns[app_type + seq![':'] + front[i].id] - now;
            assert(providers[i] == front[i]);
        }
        assert(remaining(cooldowns, app_type, last.id, now) is Some == limited(
            cooldowns,
            app_type,
            last.id,
            now,
        ));
    }
}

/// A key without a circuit breaker gets one, one that is there stays, and no other key changes.
pub proof fn law_a_circuit_breaker_is_made_once<B>(
    breakers: Map<Seq<char>, B>,
    key: Seq<char>,
    fresh: B,
    other: Seq<char>,
)
    ensures
        ({
            let after = with_breaker(breakers, key, fresh);
            &&& after.contains_key(key)
            &&& after[key] == (if breakers.contains_key(key) {
                breakers[key]
            } else {
                fresh
            })
            &&& other != key ==> after.contains_key(other) == breakers.contains_key(other)
            &&& other != key && breakers.contains_key(other) ==> after[other] == breakers[other]
        }),
{
}

/// What lies under a prefix, and what is left without it.
pub proof fn law_a_prefix_parts_the_keys<V>(map: Map<Seq<char>, V>, prefix: Seq<char>, key: Seq<char>)
    ensures
        ({
            let under = prefix.len() <= key.len() && key.take(prefix.len() as int) == prefix;
            &&& keys_under(map, prefix).contains(key) == (map.contains_key(key) && under)
            &&& without_prefix(map, prefix).contains_key(key) == (map.contains_key(key) && !under)
            &&& without_prefix(map, prefix).contains_key(key) ==> without_prefix(map, prefix)[key]
                == map[key]
        }),
{
    if prefix.is_prefix_of(key) {
        assert(key.take(prefix.len() as int) =~= prefix);
    } else if prefix.len() <= key.len() && key.take(prefix.len() as int) == prefix {
        assert(prefix =~= key.subrange(0, prefix.len() as int));
    }
}

/// The application of a key is what stands before its first colon, or all of it without one.
pub proof fn law_the_application_of_a_key(key: Seq<char>)
    ensures
        ({
            let n = app_of_key(key).len() as int;
            &&& 0 <= n <= key.len()
            &&& app_of_key(key) == key.take(n)
            &&& forall|k: int| 0 <= k < n ==> #[trigger] key[k] != ':'
            &&& n < key.len() ==> key[n] == ':'
        }),
{
    crate::text::lemma_find_char_bound(key, ':');
}

} // verus!
