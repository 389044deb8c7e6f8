//! The failover queue of an application.

use crate::provider::{
    app_refusal, found_view, is_retry_target, parsed_view, provider_refusal,
    provider_supports_failover, provider_views, require_failover_app, require_failover_provider,
    retry_target, supports_failover, App, AppType, Provider, ProviderView,
};
use vstd::prelude::*;
use vstd::string::*;

verus! {

/// An entry of the failover queue.
pub struct FailoverQueueItem {
    pub provider_id: String,
    pub provider_name: String,
}

/// An entry of the failover queue.
#[verifier::ext_equal]
pub struct QueueItemView {
    pub provider_id: Seq<char>,
    pub provider_name: Seq<char>,
}

impl View for FailoverQueueItem {
    type V = QueueItemView;

    open spec fn view(&self) -> QueueItemView {
        QueueItemView { provider_id: self.provider_id@, provider_name: self.provider_name@ }
    }
}

pub open spec fn item_views(items: Seq<FailoverQueueItem>) -> Seq<QueueItemView> {
    items.map_values(|item: FailoverQueueItem| item@)
}

/// The entries whose providers may be retried with, in order.
pub open spec fn retriable_items(
    app: AppType,
    providers: Seq<ProviderView>,
    items: Seq<QueueItemView>,
) -> Seq<QueueItemView> {
    items.filter(|item: QueueItemView| retry_target(app, providers, item.provider_id))
}

/// The providers that may be retried with, in order.
pub open spec fn retriable_providers(app: AppType, providers: Seq<ProviderView>) -> Seq<
    ProviderView,
> {
    providers.filter(|provider: ProviderView| supports_failover(app, provider))
}

/// The queue of an application, as far as its providers may be retried with. `queue` and
/// `providers` are what the store holds.
pub fn get_failover_queue(
    parsed: Result<App, String>,
    queue: Vec<FailoverQueueItem>,
    providers: &Vec<Provider>,
) -> (res: Result<Vec<FailoverQueueItem>, String>)
    ensures
        match res {
            Ok(items) => app_refusal(parsed_view(parsed)) is None && item_views(items@)
                == retriable_items(
                parsed_view(parsed)->Ok_0.kind,
                provider_views(providers@),
                item_views(queue@),
            ),
            Err(message) => app_refusal(parsed_view(parsed)) == Some(message@),
        },
{
    let app = match require_failover_app(parsed) {
        Err(message) => {
            return Err(message);
        },
        Ok(app) => app.kind(),
    };
    let ghost all = item_views(queue@);
    let ghost keep = |item: QueueItemView|
        retry_target(app, provider_views(providers@), item.provider_id);
    let mut kept: Vec<FailoverQueueItem> = Vec::new();
    let mut rest = queue;
    proof {
        assert(all.take(0).filter(keep) =~= Seq::<QueueItemView>::empty()) by {
            reveal(Seq::filter);
        }
        assert(item_views(kept@) =~= Seq::<QueueItemView>::empty());
        assert(item_views(rest@) =~= all.skip(0));
    }
    while rest.len() > 0
        invariant
            rest@.len() <= all.len(),
            item_views(rest@) == all.skip(all.len() - rest@.len()),
            item_views(kept@) == all.take(all.len() - rest@.len()).filter(keep),
            keep == (|item: QueueItemView|
                retry_target(app, provider_views(providers@), item.provider_id)),
        decreases rest@.len(),
    {
        let ghost n = all.len() - rest@.len();
        let ghost views = item_views(rest@);
        let item = rest.remove(0);
        proof {
            assert(views[0] == item@);
            assert(all[n] == item@);
            assert(item_views(rest@) =~= views.skip(1));
            assert(views.skip(1) =~= all.skip(n + 1));
            lemma_filter_next(all, keep, n);
        }
        if is_retry_target(app, providers, item.provider_id.as_str()) {
            let ghost before = item_views(kept@);
            kept.push(item);
            assert(item_views(kept@) =~= before.push(item@));
        }
    }
    assert(all.take(all.len() as int) =~= all);
    Ok(kept)
}

proof fn lemma_filter_next<A>(s: Seq<A>, keep: spec_fn(A) -> bool, n: int)
    requires
        0 <= n < s.len(),
    ensures
        s.take(n + 1).filter(keep) == (if keep(s[n]) {
            s.take(n).filter(keep).push(s[n])
        } else {
            s.take(n).filter(keep)
        }),
{
    reveal(Seq::filter);
    assert(s.take(n + 1).drop_last() =~= s.take(n));
    assert(s.take(n + 1).last() == s[n]);
}

/// The providers that can be added to the queue, as far as they may be retried with.
/// `providers` is what the store holds outside the queue.
pub fn get_available_providers_for_failover(
    parsed: Result<App, String>,
    providers: Vec<Provider>,
) -> (res: Result<Vec<Provider>, String>)
    ensures
        match res {
            Ok(available) => app_refusal(parsed_view(parsed)) is None && provider_views(
                available@,
            ) == retriable_providers(
                parsed_view(parsed)->Ok_0.kind,
                provider_views(providers@),
            ),
            Err(message) => app_refusal(parsed_view(parsed)) == Some(message@),
        },
{
    let app = match require_failover_app(parsed) {
        Err(message) => {
            return Err(message);
        },
        Ok(app) => app.kind(),
    };
    let ghost all = provider_views(providers@);
    let ghost keep = |provider: ProviderView| supports_failover(app, provider);
    let mut kept: Vec<Provider> = Vec::new();
    let mut rest = providers;
    proof {
        assert(all.take(0).filter(keep) =~= Seq::<ProviderView>::empty()) by {
            reveal(Seq::filter);
        }
        assert(provider_views(kept@) =~= Seq::<ProviderView>::empty());
        assert(provider_views(rest@) =~= all.skip(0));
    }
    while rest.len() > 0
        invariant
            rest@.len() <= all.len(),
            provider_views(rest@) == all.skip(all.len() - rest@.len()),
            provider_views(kept@) == all.take(all.len() - rest@.len()).filter(keep),
            keep == (|provider: ProviderView| supports_failover(app, provider)),
        decreases rest@.len(),
    {
        let ghost n = all.len() - rest@.len();
        let ghost views = provider_views(rest@);
        let provider = rest.remove(0);
        proof {
            assert(views[0] == provider@);
            assert(all[n] == provider@);
            assert(provider_views(rest@) =~= views.skip(1));
            assert(views.skip(1) =~= all.skip(n + 1));
            lemma_filter_next(all, keep, n);
        }
        if provider_supports_failover(app, &provider) {
            let ghost before = provider_views(kept@);
            kept.push(provider);
            assert(provider_views(kept@) =~= before.push(provider@));
        }
    }
    assert(all.take(all.len() as int) =~= all);
    Ok(kept)
}

/// Whether a provider may be added to an application's queue. `found` is what the store says
/// of it.
pub fn add_to_failover_queue(
    parsed: Result<App, String>,
    provider_id: &str,
    found: Result<Option<Provider>, String>,
) -> (res: Result<(), String>)
    ensures
        match res {
            Ok(()) => app_refusal(parsed_view(parsed)) is None && provider_refusal(
                found_view(found),
                parsed_view(parsed)->Ok_0.kind,
                provider_id@,
            ) is None,
            Err(message) => match app_refusal(parsed_view(parsed)) {
                Some(refusal) => message@ == refusal,
                None => provider_refusal(
                    found_view(found),
                    parsed_view(parsed)->Ok_0.kind,
                    provider_id@,
                ) == Some(message@),
            },
        },
{
    let app = match require_failover_app(parsed) {
        Err(message) => {
            return Err(message);
        },
        Ok(app) => app.kind(),
    };
    match require_failover_provider(found, app, provider_id) {
        Ok(_) => Ok(()),
        Err(message) => Err(message),
    }
}

} // verus!
