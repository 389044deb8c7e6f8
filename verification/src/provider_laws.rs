//! What holds of applications and providers in failover.

use crate::failover::{retriable_items, retriable_providers, QueueItemView};
use crate::picking::{lemma_picked_next, lemma_picked_none, picked};
use crate::provider::{
    app_refusal, find_provider, kind_of, named_app, provider_refusal, retry_target,
    supports_failover, AppNamesView, AppType, AppView, ProviderView,
};
use crate::response::policy_of;
use vstd::prelude::*;

verus! {

/// The kind of an application goes by its name alone: the desktop client and the command line
/// client by the names that the host gives them, Codex by its own, and all others alike. Only the
/// desktop client has a title of its own.
pub proof fn law_an_application_is_what_its_name_says(
    names: AppNamesView,
    name: Seq<char>,
    local_proxy: bool,
)
    ensures
        kind_of(names, name) is ClaudeDesktop == (name == names.claude_desktop),
        kind_of(names, name) is Claude == (name == names.claude && name != names.claude_desktop),
        kind_of(names, name) is Codex == (name == "codex"@ && name != names.claude_desktop && name
            != names.claude),
        ({
            let app = named_app(names, name, local_proxy);
            &&& app.kind == kind_of(names, name)
            &&& app.name == name
            &&& app.local_proxy == local_proxy
            &&& name == names.claude_desktop ==> app.title == names.claude_desktop_title
            &&& name != names.claude_desktop ==> app.title == name
        }),
{
}

/// Each application has its way to end a stream: the desktop client is spared errors, the command
/// line client gets whole events, and every other gets the bytes.
pub proof fn law_how_streams_end_goes_by_the_application(names: AppNamesView, name: Seq<char>)
    ensures
        ({
            let policy = policy_of(kind_of(names, name));
            &&& name == names.claude_desktop ==> policy is ClaudeDesktopAnthropic
            &&& name == names.claude && name != names.claude_desktop
                ==> policy is AnthropicMessages
            &&& name != names.claude && name != names.claude_desktop ==> policy is Passthrough
        }),
{
}

/// Failover is refused to a name that stands for no application, and to an application that is
/// neither taken over by the proxy nor the desktop client; to all others it is not.
pub proof fn law_who_is_refused_failover(parsed: Result<AppView, Seq<char>>)
    ensures
        match parsed {
            Ok(app) => {
                &&& app.local_proxy || app.kind is ClaudeDesktop ==> app_refusal(parsed) is None
                &&& !app.local_proxy && !(app.kind is ClaudeDesktop) ==> app_refusal(parsed)
                    == Some(app.name + " 不支持故障转移"@)
            },
            Err(message) => app_refusal(parsed) == Some("无效的应用类型: "@ + message),
        },
{
}

/// The desktop client retries with a provider exactly where it is a valid proxy provider that is
/// not the official one; Codex with every provider but an official account card; all others with
/// every provider.
pub proof fn law_which_providers_are_retried(provider: ProviderView)
    ensures
        supports_failover(AppType::ClaudeDesktop, provider) <==> !provider.desktop_official
            && provider.desktop_mode is Proxy && provider.desktop_proxy_valid,
        supports_failover(AppType::Codex, provider) <==> !provider.codex_official,
        supports_failover(AppType::Claude, provider),
        supports_failover(AppType::Other, provider),
{
}

/// A provider is refused where the store fails or has no such provider, and where it may not be
/// retried with; otherwise it is not.
pub proof fn law_which_providers_are_refused(
    found: Result<Option<ProviderView>, Seq<char>>,
    app: AppType,
    id: Seq<char>,
)
    ensures
        match found {
            Err(message) => provider_refusal(found, app, id) == Some(message),
            Ok(None) => provider_refusal(found, app, id) == Some("供应商不存在: "@ + id),
            Ok(Some(provider)) => {
                &&& supports_failover(app, provider) ==> provider_refusal(found, app, id) is None
                &&& !supports_failover(app, provider) ==> provider_refusal(found, app, id) == Some(
                    "Codex Official 账号卡不支持自动故障转移"@,
                )
            },
        },
{
}

/// Looking a provider up gives the first one with the identifier, and nothing where none has it.
pub proof fn law_a_provider_is_found_by_its_identifier(providers: Seq<ProviderView>, id: Seq<char>)
    ensures
        match find_provider(providers, id) {
            None => forall|i: int| 0 <= i < providers.len() ==> (#[trigger] providers[i]).id != id,
            Some(provider) => exists|i: int|
                #![trigger providers[i]]
                0 <= i < providers.len() && providers[i] == provider && provider.id == id && (
                forall|j: int| 0 <= j < i ==> (#[trigger] providers[j]).id != id),
        },
    decreases providers.len(),
{
    if providers.len() > 0 {
        let rest = providers.drop_first();
        if providers[0].id != id {
            law_a_provider_is_found_by_its_identifier(rest, id);
            assert forall|i: int| 0 < i < providers.len() implies #[trigger] providers[i]
                == rest[i - 1] by {}
            if let Some(provider) = find_provider(rest, id) {
                let i = choose|i: int|
                    #![trigger rest[i]]
                    0 <= i < rest.len() && rest[i] == provider && provider.id == id && (forall|
                        j: int,
                    | 0 <= j < i ==> (#[trigger] rest[j]).id != id);
                assert(providers[i + 1] == provider);
                assert forall|j: int| 0 <= j < i + 1 implies (#[trigger] providers[j]).id != id by {
                    if j > 0 {
                        assert(rest[j - 1].id != id);
                    }
                }
            } else {
                assert forall|i: int| 0 <= i < providers.len() implies (
                #[trigger] providers[i]).id != id by {
                    if i > 0 {
                        assert(rest[i - 1].id != id);
                    }
                }
            }
        } else {
            assert(providers[0].id == id);
        }
    }
}

/// An identifier is a retry target where a provider has it and may be retried with.
pub proof fn law_what_a_retry_target_is(
    app: AppType,
    providers: Seq<ProviderView>,
    id: Seq<char>,
)
    ensures
        retry_target(app, providers, id) <==> find_provider(providers, id) is Some
            && supports_failover(app, find_provider(providers, id)->0),
{
}

/// What is picked by a test that holds or fails for each entry by itself.
proof fn lemma_filter<A>(all: Seq<A>, test: spec_fn(A) -> bool)
    ensures
        picked(
            all.len() as int,
            |i: int| test(all[i]),
            |i: int| all[i],
            all.filter(test),
        ),
    decreases all.len(),
{
    reveal(Seq::filter);
    let keep = |i: int| test(all[i]);
    let image = |i: int| all[i];
    if all.len() == 0 {
        lemma_picked_none(keep, image);
        assert(all.filter(test) =~= Seq::empty());
    } else {
        let front = all.drop_last();
        lemma_filter(front, test);
        lemma_picked_next(
            front.len() as int,
            |i: int| test(front[i]),
            |i: int| front[i],
            front.filter(test),
            keep,
            image,
        );
    }
}

/// The queue that is shown holds exactly the entries whose providers are known and may be retried
/// with, unchanged and in the order of the queue.
pub proof fn law_the_shown_queue_is_the_retriable_part(
    app: AppType,
    providers: Seq<ProviderView>,
    items: Seq<QueueItemView>,
)
    ensures
        picked(
            items.len() as int,
            |i: int|
                find_provider(providers, items[i].provider_id) is Some && supports_failover(
                    app,
                    find_provider(providers, items[i].provider_id)->0,
                ),
            |i: int| items[i],
            retriable_items(app, providers, items),
        ),
{
    let test = |item: QueueItemView| retry_target(app, providers, item.provider_id);
    lemma_filter(items, test);
    let a = |i: int| test(items[i]);
    let b = |i: int|
        find_provider(providers, items[i].provider_id) is Some && supports_failover(
            app,
            find_provider(providers, items[i].provider_id)->0,
        );
    assert(a =~= b);
}

/// The providers that are offered for the queue are exactly those that may be retried with, in
/// order.
pub proof fn law_the_offered_providers_are_the_retriable_ones(
    app: AppType,
    providers: Seq<ProviderView>,
)
    ensures
        picked(
            providers.len() as int,
            |i: int| supports_failover(app, providers[i]),
            |i: int| providers[i],
            retriable_providers(app, providers),
        ),
{
    let test = |provider: ProviderView| supports_failover(app, provider);
    lemma_filter(providers, test);
    let a = |i: int| test(providers[i]);
    let b = |i: int| supports_failover(app, providers[i]);
    assert(a =~= b);
}

} // verus!
