//! Applications, providers, and which of them take part in failover.

use crate::text::{concat2, str_eq};
use vstd::prelude::*;
use vstd::string::*;

verus! {

/// An application whose requests go to a provider, as far as the rules depend on it.
#[derive(Debug, Clone, Copy, PartialEq, Eq, Structural)]
pub enum AppType {
    Claude,
    ClaudeDesktop,
    Codex,
    /// One that nothing special holds of.
    Other,
}

/// What the applications with rules of their own are called.
#[verifier::ext_equal]
pub struct AppNamesView {
    pub claude: Seq<char>,
    pub claude_desktop: Seq<char>,
    pub claude_desktop_title: Seq<char>,
}

/// What the applications with rules of their own are called. The names of products are settled
/// by the host.
pub struct AppNames {
    /// The name of the command line client.
    pub claude: String,
    /// The name of the desktop client.
    pub claude_desktop: String,
    /// What the desktop client is called in messages.
    pub claude_desktop_title: String,
}

impl View for AppNames {
    type V = AppNamesView;

    open spec fn view(&self) -> AppNamesView {
        AppNamesView {
            claude: self.claude@,
            claude_desktop: self.claude_desktop@,
            claude_desktop_title: self.claude_desktop_title@,
        }
    }
}

/// The kind of application that a name stands for.
pub open spec fn kind_of(names: AppNamesView, name: Seq<char>) -> AppType {
    if name == names.claude_desktop {
        AppType::ClaudeDesktop
    } else if name == names.claude {
        AppType::Claude
    } else if name == "codex"@ {
        AppType::Codex
    } else {
        AppType::Other
    }
}

/// The kind of application that a name stands for.
pub fn app_kind(names: &AppNames, name: &str) -> (kind: AppType)
    ensures
        kind == kind_of(names@, name@),
{
    if str_eq(name, names.claude_desktop.as_str()) {
        AppType::ClaudeDesktop
    } else if str_eq(name, names.claude.as_str()) {
        AppType::Claude
    } else if str_eq(name, "codex") {
        AppType::Codex
    } else {
        AppType::Other
    }
}

/// An application.
#[verifier::ext_equal]
pub struct AppView {
    pub kind: AppType,
    pub name: Seq<char>,
    pub title: Seq<char>,
    pub local_proxy: bool,
}

/// The application with a name.
pub open spec fn named_app(names: AppNamesView, name: Seq<char>, local_proxy: bool) -> AppView {
    AppView {
        kind: kind_of(names, name),
        name,
        title: if kind_of(names, name) is ClaudeDesktop {
            names.claude_desktop_title
        } else {
            name
        },
        local_proxy,
    }
}

/// An application. Its kind goes by its name.
pub struct App {
    kind: AppType,
    name: String,
    title: String,
    local_proxy: bool,
}

impl View for App {
    type V = AppView;

    closed spec fn view(&self) -> AppView {
        AppView {
            kind: self.kind,
            name: self.name@,
            title: self.title@,
            local_proxy: self.local_proxy,
        }
    }
}

impl Clone for App {
    fn clone(&self) -> (copy: App)
        ensures
            copy@ == self@,
    {
        App {
            kind: self.kind,
            name: self.name.clone(),
            title: self.title.clone(),
            local_proxy: self.local_proxy,
        }
    }
}

impl App {
    /// The application with a name. `local_proxy` is whether the local proxy can take it over.
    pub fn named(names: &AppNames, name: &str, local_proxy: bool) -> (app: App)
        ensures
            app@ == named_app(names@, name@, local_proxy),
    {
        let kind = app_kind(names, name);
        let title = if kind == AppType::ClaudeDesktop {
            names.claude_desktop_title.clone()
        } else {
            name.to_owned()
        };
        App { kind, name: name.to_owned(), title, local_proxy }
    }

    pub fn kind(&self) -> (kind: AppType)
        ensures
            kind == self@.kind,
    {
        self.kind
    }

    /// What it goes by in requests, keys and the store.
    pub fn name(&self) -> (name: &str)
        ensures
            name@ == self@.name,
    {
        self.name.as_str()
    }

    /// What it is called in messages.
    pub fn title(&self) -> (title: &str)
        ensures
            title@ == self@.title,
    {
        self.title.as_str()
    }

    /// Whether the local proxy can take it over.
    pub fn supports_local_proxy(&self) -> (res: bool)
        ensures
            res == self@.local_proxy,
    {
        self.local_proxy
    }
}

/// What a name was found to stand for: an application, or a message that says why none.
pub open spec fn parsed_view(parsed: Result<App, String>) -> Result<AppView, Seq<char>> {
    match parsed {
        Ok(app) => Ok(app@),
        Err(message) => Err(message@),
    }
}

/// Whether an application can fail over: one that the local proxy takes over, or the desktop
/// client, whose gateway routes through it.
pub open spec fn can_fail_over(app: AppView) -> bool {
    app.local_proxy || app.kind is ClaudeDesktop
}

/// How the desktop client reaches a provider.
#[derive(Debug, Clone, Copy, PartialEq, Eq, Structural)]
pub enum ClaudeDesktopMode {
    /// By itself.
    Direct,
    /// Through the local proxy.
    Proxy,
}

/// What a provider is, as far as routing depends on it.
#[verifier::ext_equal]
pub struct ProviderView {
    pub id: Seq<char>,
    pub name: Seq<char>,
    pub desktop_official: bool,
    pub desktop_mode: ClaudeDesktopMode,
    pub desktop_proxy_valid: bool,
    pub codex_official: bool,
}

/// A provider, as far as routing depends on it.
pub struct Provider {
    pub id: String,
    pub name: String,
    /// Whether it is the official provider of the desktop client.
    pub desktop_official: bool,
    /// How the desktop client reaches it.
    pub desktop_mode: ClaudeDesktopMode,
    /// Whether its settings make a valid proxy provider for the desktop client.
    pub desktop_proxy_valid: bool,
    /// Whether it is an account card of Codex Official.
    pub codex_official: bool,
}

impl View for Provider {
    type V = ProviderView;

    open spec fn view(&self) -> ProviderView {
        ProviderView {
            id: self.id@,
            name: self.name@,
            desktop_official: self.desktop_official,
            desktop_mode: self.desktop_mode,
            desktop_proxy_valid: self.desktop_proxy_valid,
            codex_official: self.codex_official,
        }
    }
}

impl Clone for Provider {
    fn clone(&self) -> (copy: Provider)
        ensures
            copy@ == self@,
    {
        Provider {
            id: self.id.clone(),
            name: self.name.clone(),
            desktop_official: self.desktop_official,
            desktop_mode: self.desktop_mode,
            desktop_proxy_valid: self.desktop_proxy_valid,
            codex_official: self.codex_official,
        }
    }
}

/// The contents of several providers.
pub open spec fn provider_views(providers: Seq<Provider>) -> Seq<ProviderView> {
    providers.map_values(|provider: Provider| provider@)
}

/// Whether a request may be retried with a provider. The desktop client retries only with valid
/// proxy providers. A request of a Codex Official account carries that account's own
/// authorization, which must not reach another account, so its cards are never retried.
pub open spec fn supports_failover(app: AppType, provider: ProviderView) -> bool {
    if app is ClaudeDesktop {
        !provider.desktop_official && provider.desktop_mode is Proxy
            && provider.desktop_proxy_valid
    } else {
        !(app is Codex) || !provider.codex_official
    }
}

/// Whether a request may be retried with a provider.
pub fn provider_supports_failover(app: AppType, provider: &Provider) -> (res: bool)
    ensures
        res == supports_failover(app, provider@),
{
    if app == AppType::ClaudeDesktop {
        return !provider.desktop_official && provider.desktop_mode == ClaudeDesktopMode::Proxy
            && provider.desktop_proxy_valid;
    }
    app != AppType::Codex || !provider.codex_official
}

/// Why failover is refused to what a name stands for, where it is.
pub open spec fn app_refusal(parsed: Result<AppView, Seq<char>>) -> Option<Seq<char>> {
    match parsed {
        Err(message) => Some("无效的应用类型: "@ + message),
        Ok(app) => if can_fail_over(app) {
            None
        } else {
            Some(app.name + " 不支持故障转移"@)
        },
    }
}

/// Refuses a name that stands for no application, or for one that cannot fail over. `parsed` is
/// what the host makes of the name. The application otherwise.
pub fn require_failover_app(parsed: Result<App, String>) -> (res: Result<App, String>)
    ensures
        match res {
            Ok(app) => app_refusal(parsed_view(parsed)) is None && parsed_view(parsed) == Ok::<
                AppView,
                Seq<char>,
            >(app@),
            Err(message) => app_refusal(parsed_view(parsed)) == Some(message@),
        },
{
    match parsed {
        Err(message) => Err(concat2("无效的应用类型: ", message.as_str())),
        Ok(app) => {
            if !app.supports_local_proxy() && app.kind() != AppType::ClaudeDesktop {
                return Err(concat2(app.name(), " 不支持故障转移"));
            }
            Ok(app)
        },
    }
}

/// Why a provider cannot be failed over to, given what the store says of it.
pub open spec fn provider_refusal(
    found: Result<Option<ProviderView>, Seq<char>>,
    app: AppType,
    provider_id: Seq<char>,
) -> Option<Seq<char>> {
    match found {
        Err(message) => Some(message),
        Ok(None) => Some("供应商不存在: "@ + provider_id),
        Ok(Some(provider)) => if supports_failover(app, provider) {
            None
        } else {
            Some("Codex Official 账号卡不支持自动故障转移"@)
        },
    }
}

/// What the store says of a provider.
pub open spec fn found_view(found: Result<Option<Provider>, String>) -> Result<
    Option<ProviderView>,
    Seq<char>,
> {
    match found {
        Err(message) => Err(message@),
        Ok(None) => Ok(None),
        Ok(Some(provider)) => Ok(Some(provider@)),
    }
}

/// Refuses a provider that cannot be failed over to. `found` is what the store says of it.
pub fn require_failover_provider(
    found: Result<Option<Provider>, String>,
    app: AppType,
    provider_id: &str,
) -> (res: Result<Provider, String>)
    ensures
        match res {
            Ok(provider) => provider_refusal(found_view(found), app, provider_id@) is None
                && found_view(found) == Ok::<Option<ProviderView>, Seq<char>>(Some(provider@)),
            Err(message) => provider_refusal(found_view(found), app, provider_id@) == Some(
                message@,
            ),
        },
{
    match found {
        Err(message) => Err(message),
        Ok(None) => Err(concat2("供应商不存在: ", provider_id)),
        Ok(Some(provider)) => {
            if !provider_supports_failover(app, &provider) {
                return Err("Codex Official 账号卡不支持自动故障转移".to_owned());
            }
            Ok(provider)
        },
    }
}

/// The first provider with an identifier.
pub open spec fn find_provider(providers: Seq<ProviderView>, id: Seq<char>) -> Option<ProviderView>
    decreases providers.len(),
{
    if providers.len() == 0 {
        None
    } else if providers[0].id == id {
        Some(providers[0])
    } else {
        find_provider(providers.drop_first(), id)
    }
}

/// Looks up the first provider with an identifier.
pub fn provider_by_id<'a>(providers: &'a Vec<Provider>, id: &str) -> (res: Option<&'a Provider>)
    ensures
        match res {
            Some(provider) => find_provider(provider_views(providers@), id@) == Some(provider@),
            None => find_provider(provider_views(providers@), id@) is None,
        },
{
    let ghost all = provider_views(providers@);
    let mut i: usize = 0;
    assert(all.skip(0) =~= all);
    while i < providers.len()
        invariant
            all == provider_views(providers@),
            i <= providers.len(),
            find_provider(all, id@) == find_provider(all.skip(i as int), id@),
        decreases providers.len() - i,
    {
        assert(all.skip(i as int)[0] == providers@[i as int]@);
        assert(all.skip(i as int).drop_first() =~= all.skip(i + 1));
        if str_eq(providers[i].id.as_str(), id) {
            return Some(&providers[i]);
        }
        i += 1;
    }
    None
}

/// Whether a provider of the given identifier may be retried with.
pub open spec fn retry_target(app: AppType, providers: Seq<ProviderView>, id: Seq<char>) -> bool {
    match find_provider(providers, id) {
        Some(provider) => supports_failover(app, provider),
        None => false,
    }
}

/// Whether a provider of the given identifier may be retried with.
pub fn is_retry_target(app: AppType, providers: &Vec<Provider>, id: &str) -> (res: bool)
    ensures
        res == retry_target(app, provider_views(providers@), id@),
{
    match provider_by_id(providers, id) {
        Some(provider) => provider_supports_failover(app, provider),
        None => false,
    }
}

/// An account card of Codex Official is never a retry target of Codex.
pub proof fn law_codex_official_cards_are_never_retried(provider: ProviderView)
    requires
        provider.codex_official,
    ensures
        !supports_failover(AppType::Codex, provider),
{
}

} // verus!
