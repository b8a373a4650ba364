//! Configuration types and validation rules.
//!
//! A configuration is a TOML document with optional sections `[server]`,
//! `[providers.<name>]`, `[routes]`, `[session]` and `[quirks]`; every one has
//! a default. A route key is `provider/alias`, split at its first `/`.
use crate::json::{entries_view, items_view, lemma_items_view, lists, toml_parse, Json, JsonV};
use crate::text::{
    find, find_from, join, joined, lemma_find_from, lowered, same, same_ignoring_case, slice_string,
    to_chars, views,
};
use crate::wire::chat::{opt_json, opt_str};
use vstd::prelude::*;

verus! {

/// Where the proxy listens.
#[derive(Debug, Clone)]
pub struct ServerConfig {
    pub host: String,
    pub port: u16,
}

/// An upstream provider.
#[derive(Debug)]
pub struct ProviderConfig {
    /// Upstream base URL, including the API version path.
    pub base_url: String,
    /// The three key sources, in order of priority.
    pub api_key: Option<String>,
    pub api_key_env: Option<String>,
    pub api_key_file: Option<String>,
    /// `chat` or `responses`.
    pub format: String,
    pub timeout_ms: u64,
    /// An object of strings: headers for every upstream request.
    pub extra_headers: Option<Json>,
    /// An object: fields merged into every chat request body.
    pub extra_params: Option<Json>,
    /// Fields stripped from every chat request body.
    pub drop_params: Option<Vec<String>>,
}

/// A `provider/alias` route.
#[derive(Debug)]
pub struct RouteConfig {
    /// The upstream's model name.
    pub model: String,
    pub context_window: u64,
    /// The effort that the catalog advertises as the default.
    pub default_reasoning_effort: Option<String>,
    /// The description that the catalog shows.
    pub description: Option<String>,
}

/// Limits of the session store.
#[derive(Debug, Clone, Copy, PartialEq, Eq, Structural)]
pub struct SessionConfig {
    pub ttl_hours: u64,
    pub max_sessions: usize,
    pub max_memory_mb: usize,
}

/// Quirk names to disable.
#[derive(Debug, Clone)]
pub struct QuirksConfig {
    pub disabled: Vec<String>,
}

/// A configuration as it was read.
#[derive(Debug)]
pub struct Config {
    pub server: ServerConfig,
    pub providers: Vec<(String, ProviderConfig)>,
    pub routes: Vec<(String, RouteConfig)>,
    pub session: SessionConfig,
    pub quirks: QuirksConfig,
}

/// Errors raised while reading or validating a configuration.
#[derive(Debug)]
pub enum ConfigError {
    /// A route key without `/`.
    MissingSlash(String),
    /// A route key whose prefix names no provider.
    UnknownProvider { key: String, provider: String, available: String },
    /// A route key that stands twice.
    DuplicateRoute(String),
    /// A provider without any key source.
    MissingApiKey(String),
    /// A provider whose format is neither `chat` nor `responses`.
    InvalidFormat(String, String),
    /// A parameter key that is empty or names a field of the router's own.
    ManagedParamViolation { provider: String, field: String, key: String },
    /// A default effort that is not a known one.
    InvalidReasoningEffort { key: String, effort: String },
    /// Text that is not TOML, or TOML that is no configuration.
    Parse(String),
}

/// What a [`ConfigError`] denotes.
pub enum ErrorV {
    MissingSlash(Seq<char>),
    UnknownProvider { key: Seq<char>, provider: Seq<char>, available: Seq<char> },
    DuplicateRoute(Seq<char>),
    MissingApiKey(Seq<char>),
    InvalidFormat(Seq<char>, Seq<char>),
    ManagedParamViolation { provider: Seq<char>, field: Seq<char>, key: Seq<char> },
    InvalidReasoningEffort { key: Seq<char>, effort: Seq<char> },
    Parse(Seq<char>),
}

impl View for ConfigError {
    type V = ErrorV;

    open spec fn view(&self) -> ErrorV {
        match self {
            ConfigError::MissingSlash(k) => ErrorV::MissingSlash(k@),
            ConfigError::UnknownProvider { key, provider, available } => ErrorV::UnknownProvider {
                key: key@,
                provider: provider@,
                available: available@,
            },
            ConfigError::DuplicateRoute(k) => ErrorV::DuplicateRoute(k@),
            ConfigError::MissingApiKey(p) => ErrorV::MissingApiKey(p@),
            ConfigError::InvalidFormat(p, f) => ErrorV::InvalidFormat(p@, f@),
            ConfigError::ManagedParamViolation { provider, field, key } =>
                ErrorV::ManagedParamViolation { provider: provider@, field: field@, key: key@ },
            ConfigError::InvalidReasoningEffort { key, effort } => ErrorV::InvalidReasoningEffort {
                key: key@,
                effort: effort@,
            },
            ConfigError::Parse(m) => ErrorV::Parse(m@),
        }
    }
}

/// What a [`ProviderConfig`] denotes.
pub struct ProviderV {
    pub base_url: Seq<char>,
    pub api_key: Option<Seq<char>>,
    pub api_key_env: Option<Seq<char>>,
    pub api_key_file: Option<Seq<char>>,
    pub format: Seq<char>,
    pub timeout_ms: u64,
    pub extra_headers: Option<JsonV>,
    pub extra_params: Option<JsonV>,
    pub drop_params: Option<Seq<Seq<char>>>,
}

/// What an optional list of strings denotes.
pub open spec fn opt_strs(v: Option<Vec<String>>) -> Option<Seq<Seq<char>>> {
    match v {
        Some(x) => Some(views(x@)),
        None => None,
    }
}

impl View for ProviderConfig {
    type V = ProviderV;

    open spec fn view(&self) -> ProviderV {
        ProviderV {
            base_url: self.base_url@,
            api_key: opt_str(self.api_key),
            api_key_env: opt_str(self.api_key_env),
            api_key_file: opt_str(self.api_key_file),
            format: self.format@,
            timeout_ms: self.timeout_ms,
            extra_headers: opt_json(self.extra_headers),
            extra_params: opt_json(self.extra_params),
            drop_params: opt_strs(self.drop_params),
        }
    }
}

/// What a [`RouteConfig`] denotes.
pub struct RouteV {
    pub model: Seq<char>,
    pub context_window: u64,
    pub effort: Option<Seq<char>>,
    pub description: Option<Seq<char>>,
}

impl View for RouteConfig {
    type V = RouteV;

    open spec fn view(&self) -> RouteV {
        RouteV {
            model: self.model@,
            context_window: self.context_window,
            effort: opt_str(self.default_reasoning_effort),
            description: opt_str(self.description),
        }
    }
}

/// What a [`Config`] denotes.
pub struct ConfigV {
    pub host: Seq<char>,
    pub port: u16,
    pub providers: Seq<(Seq<char>, ProviderV)>,
    pub routes: Seq<(Seq<char>, RouteV)>,
    pub session: SessionConfig,
    pub disabled: Seq<Seq<char>>,
}

/// What a list of named providers denotes.
pub open spec fn providers_view(s: Seq<(String, ProviderConfig)>) -> Seq<(Seq<char>, ProviderV)> {
    Seq::new(s.len(), |i: int| (s[i].0@, s[i].1@))
}

/// What a list of keyed routes denotes.
pub open spec fn routes_view(s: Seq<(String, RouteConfig)>) -> Seq<(Seq<char>, RouteV)> {
    Seq::new(s.len(), |i: int| (s[i].0@, s[i].1@))
}

impl View for Config {
    type V = ConfigV;

    open spec fn view(&self) -> ConfigV {
        ConfigV {
            host: self.server.host@,
            port: self.server.port,
            providers: providers_view(self.providers@),
            routes: routes_view(self.routes@),
            session: self.session,
            disabled: views(self.quirks.disabled@),
        }
    }
}

/// A validated route: route key to provider and upstream model.
#[derive(Debug)]
pub struct ValidatedRoute {
    /// The provider name before the first `/` of the key.
    pub provider_name: String,
    pub provider: ProviderConfig,
    pub model: String,
    pub context_window: u64,
    pub default_reasoning_effort: Option<String>,
    pub description: Option<String>,
}

/// What a [`ValidatedRoute`] denotes.
pub struct ValidatedRouteV {
    pub provider_name: Seq<char>,
    pub provider: ProviderV,
    pub route: RouteV,
}

impl View for ValidatedRoute {
    type V = ValidatedRouteV;

    open spec fn view(&self) -> ValidatedRouteV {
        ValidatedRouteV {
            provider_name: self.provider_name@,
            provider: self.provider@,
            route: RouteV {
                model: self.model@,
                context_window: self.context_window,
                effort: opt_str(self.default_reasoning_effort),
                description: opt_str(self.description),
            },
        }
    }
}

/// A validated configuration: every route carries its provider.
#[derive(Debug)]
pub struct ValidatedConfig {
    pub server: ServerConfig,
    pub providers: Vec<(String, ProviderConfig)>,
    /// Validated routes by their `provider/alias` key.
    pub routes: Vec<(String, ValidatedRoute)>,
    pub session: SessionConfig,
    pub quirks: QuirksConfig,
}

/// What a list of keyed validated routes denotes.
pub open spec fn validated_view(s: Seq<(String, ValidatedRoute)>) -> Seq<
    (Seq<char>, ValidatedRouteV),
> {
    Seq::new(s.len(), |i: int| (s[i].0@, s[i].1@))
}

/// What a [`ValidatedConfig`] denotes.
pub struct ValidatedV {
    pub host: Seq<char>,
    pub port: u16,
    pub providers: Seq<(Seq<char>, ProviderV)>,
    pub routes: Seq<(Seq<char>, ValidatedRouteV)>,
    pub session: SessionConfig,
    pub disabled: Seq<Seq<char>>,
}

impl View for ValidatedConfig {
    type V = ValidatedV;

    open spec fn view(&self) -> ValidatedV {
        ValidatedV {
            host: self.server.host@,
            port: self.server.port,
            providers: providers_view(self.providers@),
            routes: validated_view(self.routes@),
            session: self.session,
            disabled: views(self.quirks.disabled@),
        }
    }
}

pub fn default_host() -> (r: String)
    ensures
        r@ == "127.0.0.1"@,
{
    "127.0.0.1".to_owned()
}

pub fn default_port() -> (r: u16)
    ensures
        r == 8787,
{
    8787
}

pub fn default_timeout() -> (r: u64)
    ensures
        r == 120_000,
{
    120_000
}

pub fn default_context_window() -> (r: u64)
    ensures
        r == 1_048_576,
{
    1_048_576
}

pub fn default_ttl() -> (r: u64)
    ensures
        r == 168,
{
    168
}

pub fn default_max_sessions() -> (r: usize)
    ensures
        r == 256,
{
    256
}

pub fn default_max_memory() -> (r: usize)
    ensures
        r == 512,
{
    512
}

impl Default for ServerConfig {
    fn default() -> (r: ServerConfig)
        ensures
            r.host@ == "127.0.0.1"@,
            r.port == 8787,
    {
        ServerConfig { host: default_host(), port: default_port() }
    }
}

impl Default for SessionConfig {
    fn default() -> (r: SessionConfig)
        ensures
            r == default_session(),
    {
        SessionConfig {
            ttl_hours: default_ttl(),
            max_sessions: default_max_sessions(),
            max_memory_mb: default_max_memory(),
        }
    }
}

/// The default limits of the session store.
pub open spec fn default_session() -> SessionConfig {
    SessionConfig { ttl_hours: 168, max_sessions: 256, max_memory_mb: 512 }
}

impl Default for QuirksConfig {
    fn default() -> (r: QuirksConfig)
        ensures
            r.disabled@.len() == 0,
    {
        QuirksConfig { disabled: Vec::new() }
    }
}

impl Default for ValidatedConfig {
    fn default() -> (r: ValidatedConfig)
        ensures
            r@ == (ValidatedV {
                host: "127.0.0.1"@,
                port: 8787,
                providers: Seq::empty(),
                routes: Seq::empty(),
                session: default_session(),
                disabled: Seq::empty(),
            }),
    {
        let r = ValidatedConfig {
            server: ServerConfig::default(),
            providers: Vec::new(),
            routes: Vec::new(),
            session: SessionConfig::default(),
            quirks: QuirksConfig::default(),
        };
        assert(r@.providers =~= Seq::<(Seq<char>, ProviderV)>::empty());
        assert(r@.routes =~= Seq::<(Seq<char>, ValidatedRouteV)>::empty());
        assert(r@.disabled =~= Seq::<Seq<char>>::empty());
        r
    }
}

/// The fields of a request body that the router itself manages.
pub open spec fn is_managed(key: Seq<char>) -> bool {
    key == "model"@ || key == "messages"@ || key == "tools"@ || key == "stream"@
}

/// A key that no parameter may have: empty, or a managed field.
pub open spec fn forbidden(key: Seq<char>) -> bool {
    key.len() == 0 || is_managed(key)
}

/// A forbidden key among the fields of an object, the first of: the empty key,
/// `model`, `messages`, `tools`, `stream`.
pub open spec fn forbidden_field(params: JsonV) -> Option<Seq<char>> {
    if params.get(Seq::empty()) is Some {
        Some(Seq::empty())
    } else if params.get("model"@) is Some {
        Some("model"@)
    } else if params.get("messages"@) is Some {
        Some("messages"@)
    } else if params.get("tools"@) is Some {
        Some("tools"@)
    } else if params.get("stream"@) is Some {
        Some("stream"@)
    } else {
        None
    }
}

/// The first forbidden key of a list, at or after `i`.
pub open spec fn forbidden_name(names: Seq<Seq<char>>, i: int) -> Option<Seq<char>>
    decreases names.len() - i,
{
    if i < 0 || i >= names.len() {
        None
    } else if forbidden(names[i]) {
        Some(names[i])
    } else {
        forbidden_name(names, i + 1)
    }
}

/// What is wrong with the parameters of a provider.
pub open spec fn provider_fault(name: Seq<char>, p: ProviderV) -> Option<ErrorV> {
    let extra = match p.extra_params {
        Some(e) => forbidden_field(e),
        None => None,
    };
    let drop = match p.drop_params {
        Some(d) => forbidden_name(d, 0),
        None => None,
    };
    match (extra, drop) {
        (Some(key), _) => Some(
            ErrorV::ManagedParamViolation { provider: name, field: "extra_params"@, key },
        ),
        (None, Some(key)) => Some(
            ErrorV::ManagedParamViolation { provider: name, field: "drop_params"@, key },
        ),
        (None, None) => None,
    }
}

/// The first fault of a provider, at or after `i`.
pub open spec fn providers_fault(
    providers: Seq<(Seq<char>, ProviderV)>,
    i: int,
) -> Option<ErrorV>
    decreases providers.len() - i,
{
    if i < 0 || i >= providers.len() {
        None
    } else {
        match provider_fault(providers[i].0, providers[i].1) {
            Some(e) => Some(e),
            None => providers_fault(providers, i + 1),
        }
    }
}

/// The position of the first provider of that name, at or after `i`.
pub open spec fn provider_at(
    providers: Seq<(Seq<char>, ProviderV)>,
    name: Seq<char>,
    i: int,
) -> Option<int>
    decreases providers.len() - i,
{
    if i < 0 || i >= providers.len() {
        None
    } else if providers[i].0 == name {
        Some(i)
    } else {
        provider_at(providers, name, i + 1)
    }
}

/// The names of a list of providers.
pub open spec fn provider_names(providers: Seq<(Seq<char>, ProviderV)>) -> Seq<Seq<char>> {
    Seq::new(providers.len(), |i: int| providers[i].0)
}

/// The provider name of a route key: what stands before its first `/`.
pub open spec fn provider_prefix(key: Seq<char>) -> Option<Seq<char>> {
    match find_from(key, 0, "/"@) {
        Some(at) => Some(key.take(at)),
        None => None,
    }
}

/// The efforts that may be a default.
pub open spec fn is_effort(e: Seq<char>) -> bool {
    e == "none"@ || e == "minimal"@ || e == "low"@ || e == "medium"@ || e == "high"@ || e
        == "xhigh"@ || e == "max"@ || e == "ultra"@
}

/// Whether a route key stands before position `i`.
pub open spec fn stands_before(
    routes: Seq<(Seq<char>, RouteV)>,
    key: Seq<char>,
    i: int,
) -> bool {
    exists|j: int| 0 <= j < i && j < routes.len() && (#[trigger] routes[j]).0 == key
}

/// What becomes of the route at position `i`: the validated route, or what is
/// wrong with it, by the first rule that it breaks.
pub open spec fn route_result(c: ConfigV, i: int) -> Result<ValidatedRouteV, ErrorV> {
    let (key, route) = c.routes[i];
    match provider_prefix(key) {
        None => Err(ErrorV::MissingSlash(key)),
        Some(name) => match provider_at(c.providers, name, 0) {
            None => Err(
                ErrorV::UnknownProvider {
                    key,
                    provider: name,
                    available: joined(provider_names(c.providers), ", "@),
                },
            ),
            Some(p) => {
                let provider = c.providers[p].1;
                if provider.format != "chat"@ && provider.format != "responses"@ {
                    Err(ErrorV::InvalidFormat(name, provider.format))
                } else if provider.api_key is None && provider.api_key_env is None
                    && provider.api_key_file is None {
                    Err(ErrorV::MissingApiKey(name))
                } else if route.effort matches Some(e) && !is_effort(e) {
                    Err(ErrorV::InvalidReasoningEffort { key, effort: route.effort->0 })
                } else if stands_before(c.routes, key, i) {
                    Err(ErrorV::DuplicateRoute(key))
                } else {
                    Ok(ValidatedRouteV { provider_name: name, provider, route })
                }
            },
        },
    }
}

/// The validated routes from position `i` on, or the first fault.
pub open spec fn routes_result(c: ConfigV, i: int) -> Result<
    Seq<(Seq<char>, ValidatedRouteV)>,
    ErrorV,
>
    decreases c.routes.len() - i,
{
    if i < 0 || i >= c.routes.len() {
        Ok(Seq::empty())
    } else {
        match route_result(c, i) {
            Err(e) => Err(e),
            Ok(r) => match routes_result(c, i + 1) {
                Err(e) => Err(e),
                Ok(rest) => Ok(seq![(c.routes[i].0, r)] + rest),
            },
        }
    }
}

/// The validated configuration, or the first fault: providers first, then
/// routes, each in order.
pub open spec fn validated(c: ConfigV) -> Result<ValidatedV, ErrorV> {
    match providers_fault(c.providers, 0) {
        Some(e) => Err(e),
        None => match routes_result(c, 0) {
            Err(e) => Err(e),
            Ok(routes) => Ok(
                ValidatedV {
                    host: c.host,
                    port: c.port,
                    providers: c.providers,
                    routes,
                    session: c.session,
                    disabled: c.disabled,
                },
            ),
        },
    }
}

fn is_managed_field(key: &str) -> (r: bool)
    ensures
        r == is_managed(key@),
{
    same(key, "model") || same(key, "messages") || same(key, "tools") || same(key, "stream")
}

fn find_forbidden_field(params: &Json) -> (r: Option<String>)
    ensures
        opt_str(r) == forbidden_field(params@),
{
    proof {
        reveal_strlit("");
        assert(""@ =~= Seq::<char>::empty());
    }
    if params.get("").is_some() {
        Some("".to_owned())
    } else if params.get("model").is_some() {
        Some("model".to_owned())
    } else if params.get("messages").is_some() {
        Some("messages".to_owned())
    } else if params.get("tools").is_some() {
        Some("tools".to_owned())
    } else if params.get("stream").is_some() {
        Some("stream".to_owned())
    } else {
        None
    }
}

fn find_forbidden_name(names: &Vec<String>) -> (r: Option<String>)
    ensures
        opt_str(r) == forbidden_name(views(names@), 0),
{
    let ghost all = views(names@);
    let mut i: usize = 0;
    while i < names.len()
        invariant
            i <= names@.len(),
            all == views(names@),
            forbidden_name(all, 0) == forbidden_name(all, i as int),
        decreases names@.len() - i,
    {
        if names[i].as_str().is_empty() || is_managed_field(names[i].as_str()) {
            return Some(names[i].clone());
        }
        i = i + 1;
    }
    None
}

fn check_provider(name: &String, p: &ProviderConfig) -> (r: Result<(), ConfigError>)
    ensures
        match r {
            Ok(_) => provider_fault(name@, p@) is None,
            Err(e) => provider_fault(name@, p@) == Some(e@),
        },
{
    if let Some(extra) = &p.extra_params {
        if let Some(key) = find_forbidden_field(extra) {
            return Err(
                ConfigError::ManagedParamViolation {
                    provider: name.clone(),
                    field: "extra_params".to_owned(),
                    key,
                },
            );
        }
    }
    if let Some(drop) = &p.drop_params {
        if let Some(key) = find_forbidden_name(drop) {
            return Err(
                ConfigError::ManagedParamViolation {
                    provider: name.clone(),
                    field: "drop_params".to_owned(),
                    key,
                },
            );
        }
    }
    Ok(())
}

fn check_providers(providers: &Vec<(String, ProviderConfig)>) -> (r: Result<(), ConfigError>)
    ensures
        match r {
            Ok(_) => providers_fault(providers_view(providers@), 0) is None,
            Err(e) => providers_fault(providers_view(providers@), 0) == Some(e@),
        },
{
    let ghost all = providers_view(providers@);
    let mut i: usize = 0;
    while i < providers.len()
        invariant
            i <= providers@.len(),
            all == providers_view(providers@),
            providers_fault(all, 0) == providers_fault(all, i as int),
        decreases providers@.len() - i,
    {
        match check_provider(&providers[i].0, &providers[i].1) {
            Ok(_) => {},
            Err(e) => {
                return Err(e);
            },
        }
        i = i + 1;
    }
    Ok(())
}

fn find_provider(providers: &Vec<(String, ProviderConfig)>, name: &str) -> (r: Option<usize>)
    ensures
        match r {
            Some(p) => provider_at(providers_view(providers@), name@, 0) == Some(p as int) && p
                < providers@.len(),
            None => provider_at(providers_view(providers@), name@, 0) is None,
        },
{
    let ghost all = providers_view(providers@);
    let mut i: usize = 0;
    while i < providers.len()
        invariant
            i <= providers@.len(),
            all == providers_view(providers@),
            provider_at(all, name@, 0) == provider_at(all, name@, i as int),
        decreases providers@.len() - i,
    {
        if same(providers[i].0.as_str(), name) {
            return Some(i);
        }
        i = i + 1;
    }
    None
}

fn join_names(providers: &Vec<(String, ProviderConfig)>) -> (r: String)
    ensures
        r@ == joined(provider_names(providers_view(providers@)), ", "@),
{
    let ghost all = provider_names(providers_view(providers@));
    let mut names: Vec<String> = Vec::new();
    let mut i: usize = 0;
    while i < providers.len()
        invariant
            i <= providers@.len(),
            names@.len() == i,
            all == provider_names(providers_view(providers@)),
            forall|k: int| 0 <= k < i ==> (#[trigger] names@[k])@ == all[k],
        decreases providers@.len() - i,
    {
        names.push(providers[i].0.clone());
        i = i + 1;
    }
    assert(views(names@) =~= all);
    join(&names, ", ")
}

/// The provider name of a route key.
fn split_key(key: &str) -> (r: Option<String>)
    ensures
        opt_str(r) == provider_prefix(key@),
{
    let chars = to_chars(key);
    let slash = to_chars("/");
    proof {
        lemma_find_from(key@, 0, "/"@);
    }
    match find(&chars, 0, &slash) {
        Some(at) => {
            assert(chars@.subrange(0, at as int) =~= chars@.take(at as int));
            Some(slice_string(&chars, 0, at))
        },
        None => None,
    }
}

fn is_known_effort(e: &str) -> (r: bool)
    ensures
        r == is_effort(e@),
{
    same(e, "none") || same(e, "minimal") || same(e, "low") || same(e, "medium") || same(e, "high")
        || same(e, "xhigh") || same(e, "max") || same(e, "ultra")
}

fn dup_opt_json(j: &Option<Json>) -> (r: Option<Json>)
    ensures
        opt_json(r) == opt_json(*j),
{
    match j {
        Some(x) => Some(x.dup()),
        None => None,
    }
}

/// A copy of a list of strings.
fn dup_strings(v: &Vec<String>) -> (r: Vec<String>)
    ensures
        views(r@) == views(v@),
{
    let mut out: Vec<String> = Vec::new();
    let mut i: usize = 0;
    while i < v.len()
        invariant
            i <= v@.len(),
            out@.len() == i,
            forall|k: int| 0 <= k < i ==> (#[trigger] out@[k])@ == v@[k]@,
        decreases v@.len() - i,
    {
        out.push(v[i].clone());
        i = i + 1;
    }
    assert(views(out@) =~= views(v@));
    out
}

impl ProviderConfig {
    /// A copy that denotes the same provider.
    pub fn dup(&self) -> (r: ProviderConfig)
        ensures
            r@ == self@,
    {
        let drop_params = match &self.drop_params {
            Some(d) => Some(dup_strings(d)),
            None => None,
        };
        ProviderConfig {
            base_url: self.base_url.clone(),
            api_key: self.api_key.clone(),
            api_key_env: self.api_key_env.clone(),
            api_key_file: self.api_key_file.clone(),
            format: self.format.clone(),
            timeout_ms: self.timeout_ms,
            extra_headers: dup_opt_json(&self.extra_headers),
            extra_params: dup_opt_json(&self.extra_params),
            drop_params,
        }
    }
}

impl Config {
    /// Whether a route key stands before position `i`.
    fn is_repeated(&self, i: usize) -> (r: bool)
        requires
            i < self.routes@.len(),
        ensures
            r == stands_before(self@.routes, self@.routes[i as int].0, i as int),
    {
        let ghost all = self@.routes;
        let mut j: usize = 0;
        while j < i
            invariant
                j <= i < self.routes@.len(),
                all == routes_view(self.routes@),
                forall|k: int| 0 <= k < j ==> (#[trigger] all[k]).0 != all[i as int].0,
            decreases i - j,
        {
            if same(self.routes[j].0.as_str(), self.routes[i].0.as_str()) {
                assert(all[j as int].0 == all[i as int].0);
                return true;
            }
            j = j + 1;
        }
        false
    }

    fn check_route(&self, i: usize) -> (r: Result<ValidatedRoute, ConfigError>)
        requires
            i < self.routes@.len(),
        ensures
            match r {
                Ok(v) => route_result(self@, i as int) == Ok::<ValidatedRouteV, ErrorV>(v@),
                Err(e) => route_result(self@, i as int) == Err::<ValidatedRouteV, ErrorV>(e@),
            },
    {
        let key = &self.routes[i].0;
        let route = &self.routes[i].1;
        let name = match split_key(key.as_str()) {
            Some(n) => n,
            None => {
                return Err(ConfigError::MissingSlash(key.clone()));
            },
        };
        let p = match find_provider(&self.providers, name.as_str()) {
            Some(p) => p,
            None => {
                return Err(
                    ConfigError::UnknownProvider {
                        key: key.clone(),
                        provider: name,
                        available: join_names(&self.providers),
                    },
                );
            },
        };
        let provider = &self.providers[p].1;
        if !same(provider.format.as_str(), "chat") && !same(
            provider.format.as_str(),
            "responses",
        ) {
            return Err(ConfigError::InvalidFormat(name, provider.format.clone()));
        }
        if provider.api_key.is_none() && provider.api_key_env.is_none()
            && provider.api_key_file.is_none() {
            return Err(ConfigError::MissingApiKey(name));
        }
        if let Some(effort) = &route.default_reasoning_effort {
            if !is_known_effort(effort.as_str()) {
                return Err(
                    ConfigError::InvalidReasoningEffort {
                        key: key.clone(),
                        effort: effort.clone(),
                    },
                );
            }
        }
        if self.is_repeated(i) {
            return Err(ConfigError::DuplicateRoute(key.clone()));
        }
        Ok(
            ValidatedRoute {
                provider_name: name,
                provider: provider.dup(),
                model: route.model.clone(),
                context_window: route.context_window,
                default_reasoning_effort: route.default_reasoning_effort.clone(),
                description: route.description.clone(),
            },
        )
    }

    /// Validate the configuration and build the route lookup.
    ///
    /// First, no parameter of a provider may be empty or managed. Then, for
    /// each route: its key must contain `/`; the prefix must name a provider;
    /// the provider's format must be known; it must have a key source; the
    /// default effort must be known; the key must not stand twice.
    pub fn validate(self) -> (r: Result<ValidatedConfig, ConfigError>)
        ensures
            match r {
                Ok(v) => validated(self@) == Ok::<ValidatedV, ErrorV>(v@),
                Err(e) => validated(self@) == Err::<ValidatedV, ErrorV>(e@),
            },
    {
        match check_providers(&self.providers) {
            Ok(_) => {},
            Err(e) => {
                return Err(e);
            },
        }
        let mut routes: Vec<(String, ValidatedRoute)> = Vec::new();
        let ghost whole = routes_result(self@, 0);
        let mut i: usize = 0;
        assert(validated_view(routes@) =~= Seq::<(Seq<char>, ValidatedRouteV)>::empty());
        proof {
            lemma_empty_prefix(whole);
        }
        while i < self.routes.len()
            invariant
                i <= self.routes@.len(),
                providers_fault(self@.providers, 0) is None,
                whole == routes_result(self@, 0),
                whole == after_prefix(validated_view(routes@), routes_result(self@, i as int)),
            decreases self.routes@.len() - i,
        {
            match self.check_route(i) {
                Ok(v) => {
                    let ghost before = routes@;
                    let entry = (self.routes[i].0.clone(), v);
                    routes.push(entry);
                    proof {
                        assert(validated_view(routes@) =~= validated_view(before).push(
                            (entry.0@, entry.1@),
                        ));
                        lemma_prefix_push(
                            validated_view(before),
                            (entry.0@, entry.1@),
                            routes_result(self@, i + 1),
                        );
                    }
                },
                Err(e) => {
                    return Err(e);
                },
            }
            i = i + 1;
        }
        assert(validated_view(routes@) + Seq::<(Seq<char>, ValidatedRouteV)>::empty()
            =~= validated_view(routes@));
        Ok(
            ValidatedConfig {
                server: self.server,
                providers: self.providers,
                routes,
                session: self.session,
                quirks: self.quirks,
            },
        )
    }
}

/// The string field `k` of an object, or `d` where there is none; nothing
/// where the field is no string.
pub open spec fn str_or(o: JsonV, k: Seq<char>, d: Seq<char>) -> Option<Seq<char>> {
    match o.get(k) {
        Some(v) => v.as_str(),
        None => Some(d),
    }
}

/// Whether the field `k` is absent or a string.
pub open spec fn opt_str_ok(o: JsonV, k: Seq<char>) -> bool {
    o.get(k) matches Some(v) ==> v is Str
}

/// The integer field `k` of an object, or `d` where there is none; nothing
/// where the field is no integer from 0 to `max`.
pub open spec fn int_or(o: JsonV, k: Seq<char>, d: u64, max: u64) -> Option<u64> {
    match o.get(k) {
        Some(v) => match v.as_u64() {
            Some(n) => if n <= max {
                Some(n)
            } else {
                None
            },
            None => None,
        },
        None => Some(d),
    }
}

/// Whether every value is a string.
pub open spec fn all_strs(s: Seq<JsonV>) -> bool {
    forall|i: int| 0 <= i < s.len() ==> (#[trigger] s[i]) is Str
}

/// The texts of a list of strings.
pub open spec fn texts(s: Seq<JsonV>) -> Seq<Seq<char>> {
    Seq::new(s.len(), |i: int| s[i]->Str_0)
}

/// Whether a value is an array of strings.
pub open spec fn is_str_list(v: JsonV) -> bool {
    v matches JsonV::Arr(s) && all_strs(s)
}

/// Whether a value is an object whose fields are all strings.
pub open spec fn is_str_table(v: JsonV) -> bool {
    v matches JsonV::Obj(m) && forall|k: Seq<char>| #[trigger]
        m.dom().contains(k) ==> m[k] is Str
}

/// What string slices denote.
pub open spec fn str_views(s: Seq<&str>) -> Seq<Seq<char>> {
    Seq::new(s.len(), |i: int| s[i]@)
}

/// The object whose first `n` fields have these names and values.
pub open spec fn fielded(names: Seq<Seq<char>>, values: Seq<JsonV>, n: int) -> JsonV
    decreases n,
{
    if n <= 0 {
        JsonV::object()
    } else {
        fielded(names, values, n - 1).set(names[n - 1], values[n - 1])
    }
}

/// A value as a table: an array stands for the fields of those names, in order;
/// what goes beyond them counts for nothing.
pub open spec fn as_table(v: JsonV, names: Seq<Seq<char>>) -> JsonV {
    match v {
        JsonV::Arr(values) => fielded(
            names,
            values,
            if values.len() < names.len() {
                values.len() as int
            } else {
                names.len() as int
            },
        ),
        _ => v,
    }
}

/// The provider that an object describes, if it describes one.
pub open spec fn provider_in(o: JsonV) -> Option<ProviderV> {
    let timeout = int_or(o, "timeout_ms"@, 120_000, u64::MAX);
    if o is Obj && o.get_str("base_url"@) is Some && o.get_str("format"@) is Some && opt_str_ok(
        o,
        "api_key"@,
    ) && opt_str_ok(o, "api_key_env"@) && opt_str_ok(o, "api_key_file"@) && timeout is Some && (
    o.get("extra_headers"@) matches Some(h) ==> is_str_table(h)) && (o.get(
        "extra_params"@,
    ) matches Some(p) ==> p is Obj) && (o.get("drop_params"@) matches Some(d) ==> is_str_list(d)) {
        Some(
            ProviderV {
                base_url: o.get_str("base_url"@)->0,
                api_key: o.get_str("api_key"@),
                api_key_env: o.get_str("api_key_env"@),
                api_key_file: o.get_str("api_key_file"@),
                format: o.get_str("format"@)->0,
                timeout_ms: timeout->0,
                extra_headers: o.get("extra_headers"@),
                extra_params: o.get("extra_params"@),
                drop_params: match o.get_arr("drop_params"@) {
                    Some(d) => Some(texts(d)),
                    None => None,
                },
            },
        )
    } else {
        None
    }
}

/// The fields of a provider, in order.
pub open spec fn provider_fields() -> Seq<Seq<char>> {
    seq![
        "base_url"@,
        "api_key"@,
        "api_key_env"@,
        "api_key_file"@,
        "format"@,
        "timeout_ms"@,
        "extra_headers"@,
        "extra_params"@,
        "drop_params"@,
    ]
}

/// The provider that a table or an array of its fields describes, if it
/// describes one.
pub open spec fn provider_of(v: JsonV) -> Option<ProviderV> {
    provider_in(as_table(v, provider_fields()))
}

/// The route that an object describes, if it describes one.
pub open spec fn route_in(o: JsonV) -> Option<RouteV> {
    let window = int_or(o, "context_window"@, 1_048_576, u64::MAX);
    if o is Obj && o.get_str("model"@) is Some && window is Some && opt_str_ok(
        o,
        "default_reasoning_effort"@,
    ) && opt_str_ok(o, "description"@) {
        Some(
            RouteV {
                model: o.get_str("model"@)->0,
                context_window: window->0,
                effort: o.get_str("default_reasoning_effort"@),
                description: o.get_str("description"@),
            },
        )
    } else {
        None
    }
}

/// The fields of a route, in order.
pub open spec fn route_fields() -> Seq<Seq<char>> {
    seq!["model"@, "context_window"@, "default_reasoning_effort"@, "description"@]
}

/// The route that a table or an array of its fields describes, if it describes
/// one.
pub open spec fn route_of(v: JsonV) -> Option<RouteV> {
    route_in(as_table(v, route_fields()))
}

/// The section `k` of a document; an empty one where it is absent.
pub open spec fn section(doc: JsonV, k: Seq<char>) -> JsonV {
    match doc.get(k) {
        Some(v) => v,
        None => JsonV::object(),
    }
}

/// The address and port of a `[server]` section.
pub open spec fn server_in(o: JsonV) -> Option<(Seq<char>, u16)> {
    let host = str_or(o, "host"@, "127.0.0.1"@);
    let port = int_or(o, "port"@, 8787, 65535);
    if o is Obj && host is Some && port is Some {
        Some((host->0, port->0 as u16))
    } else {
        None
    }
}

/// The fields of a `[server]` section, in order.
pub open spec fn server_fields() -> Seq<Seq<char>> {
    seq!["host"@, "port"@]
}

/// The address and port of a `[server]` section, a table or an array of its
/// fields.
pub open spec fn server_of(v: JsonV) -> Option<(Seq<char>, u16)> {
    server_in(as_table(v, server_fields()))
}

/// The limits of a `[session]` section.
pub open spec fn session_in(o: JsonV) -> Option<SessionConfig> {
    let ttl = int_or(o, "ttl_hours"@, 168, u64::MAX);
    let sessions = int_or(o, "max_sessions"@, 256, usize::MAX as u64);
    let memory = int_or(o, "max_memory_mb"@, 512, usize::MAX as u64);
    if o is Obj && ttl is Some && sessions is Some && memory is Some {
        Some(
            SessionConfig {
                ttl_hours: ttl->0,
                max_sessions: sessions->0 as usize,
                max_memory_mb: memory->0 as usize,
            },
        )
    } else {
        None
    }
}

/// The fields of a `[session]` section, in order.
pub open spec fn session_fields() -> Seq<Seq<char>> {
    seq!["ttl_hours"@, "max_sessions"@, "max_memory_mb"@]
}

/// The limits of a `[session]` section, a table or an array of its fields.
pub open spec fn session_of(v: JsonV) -> Option<SessionConfig> {
    session_in(as_table(v, session_fields()))
}

/// The names of a `[quirks]` section.
pub open spec fn quirks_in(o: JsonV) -> Option<Seq<Seq<char>>> {
    match o.get("disabled"@) {
        _ if !(o is Obj) => None,
        None => Some(Seq::empty()),
        Some(d) => if is_str_list(d) {
            Some(texts(d->Arr_0))
        } else {
            None
        },
    }
}

/// The fields of a `[quirks]` section, in order.
pub open spec fn quirks_fields() -> Seq<Seq<char>> {
    seq!["disabled"@]
}

/// The names of a `[quirks]` section, a table or an array of its fields.
pub open spec fn quirks_of(v: JsonV) -> Option<Seq<Seq<char>>> {
    quirks_in(as_table(v, quirks_fields()))
}

/// Whether every field of an object describes a provider.
pub open spec fn providers_ok(o: JsonV) -> bool {
    o matches JsonV::Obj(m) && forall|k: Seq<char>| #[trigger]
        m.dom().contains(k) ==> provider_of(m[k]) is Some
}

/// Whether every field of an object describes a route.
pub open spec fn routes_ok(o: JsonV) -> bool {
    o matches JsonV::Obj(m) && forall|k: Seq<char>| #[trigger]
        m.dom().contains(k) ==> route_of(m[k]) is Some
}

/// Whether a list holds each provider of an object once, under its name.
pub open spec fn lists_providers(o: JsonV, l: Seq<(Seq<char>, ProviderV)>) -> bool {
    &&& forall|i: int|
        0 <= i < l.len() ==> o.get((#[trigger] l[i]).0) is Some && provider_of(o.at(l[i].0))
            == Some(l[i].1)
    &&& forall|i: int, j: int| 0 <= i < j < l.len() ==> (#[trigger] l[i]).0 != (#[trigger] l[j]).0
    &&& forall|k: Seq<char>|
        #![trigger o.get(k)]
        o.get(k) is Some ==> exists|i: int| 0 <= i < l.len() && (#[trigger] l[i]).0 == k
}

/// Whether a list holds each route of an object once, under its key.
pub open spec fn lists_routes(o: JsonV, l: Seq<(Seq<char>, RouteV)>) -> bool {
    &&& forall|i: int|
        0 <= i < l.len() ==> o.get((#[trigger] l[i]).0) is Some && route_of(o.at(l[i].0)) == Some(
            l[i].1,
        )
    &&& forall|i: int, j: int| 0 <= i < j < l.len() ==> (#[trigger] l[i]).0 != (#[trigger] l[j]).0
    &&& forall|k: Seq<char>|
        #![trigger o.get(k)]
        o.get(k) is Some ==> exists|i: int| 0 <= i < l.len() && (#[trigger] l[i]).0 == k
}

/// What is wrong with a document: the first of its sections that is no such
/// section.
pub open spec fn document_fault(doc: JsonV) -> Option<Seq<char>> {
    if server_of(section(doc, "server"@)) is None {
        Some("invalid [server] section"@)
    } else if !providers_ok(section(doc, "providers"@)) {
        Some("invalid [providers] section"@)
    } else if !routes_ok(section(doc, "routes"@)) {
        Some("invalid [routes] section"@)
    } else if session_of(section(doc, "session"@)) is None {
        Some("invalid [session] section"@)
    } else if quirks_of(section(doc, "quirks"@)) is None {
        Some("invalid [quirks] section"@)
    } else {
        None
    }
}

/// Whether a configuration is what a document describes. Providers and routes
/// may stand in any order; fields that are not known count for nothing.
pub open spec fn describes(doc: JsonV, c: ConfigV) -> bool {
    &&& server_of(section(doc, "server"@)) == Some((c.host, c.port))
    &&& lists_providers(section(doc, "providers"@), c.providers)
    &&& lists_routes(section(doc, "routes"@), c.routes)
    &&& session_of(section(doc, "session"@)) == Some(c.session)
    &&& quirks_of(section(doc, "quirks"@)) == Some(c.disabled)
}

/// Whether `r` is what reading a document gives: the configuration, where the
/// document has no fault, and else that fault.
pub open spec fn read_as(doc: JsonV, r: Result<Config, ConfigError>) -> bool {
    match document_fault(doc) {
        None => r matches Ok(c) && describes(doc, c@),
        Some(m) => r matches Err(e) && e@ == ErrorV::Parse(m),
    }
}

fn is_object(v: &Json) -> (r: bool)
    ensures
        r == v@ is Obj,
{
    match v {
        Json::Obj(_) => true,
        _ => false,
    }
}

fn is_string(v: &Json) -> (r: bool)
    ensures
        r == v@ is Str,
{
    match v {
        Json::Str(_) => true,
        _ => false,
    }
}

fn text_or(o: &Json, k: &str, d: &str) -> (r: Option<String>)
    ensures
        opt_str(r) == str_or(o@, k@, d@),
{
    match o.get(k) {
        Some(v) => match v.as_str() {
            Some(s) => Some(s.to_owned()),
            None => None,
        },
        None => Some(d.to_owned()),
    }
}

fn number_or(o: &Json, k: &str, d: u64, max: u64) -> (r: Option<u64>)
    ensures
        r == int_or(o@, k@, d, max),
{
    match o.get(k) {
        Some(v) => match v.as_u64() {
            Some(n) => if n <= max {
                Some(n)
            } else {
                None
            },
            None => None,
        },
        None => Some(d),
    }
}

/// The optional string field `k`; nothing where it is no string.
fn maybe_text(o: &Json, k: &str) -> (r: Option<Option<String>>)
    ensures
        match r {
            Some(s) => opt_str_ok(o@, k@) && opt_str(s) == o@.get_str(k@),
            None => !opt_str_ok(o@, k@),
        },
{
    match o.get(k) {
        Some(v) => match v.as_str() {
            Some(s) => Some(Some(s.to_owned())),
            None => None,
        },
        None => Some(None),
    }
}

fn string_list(v: &Json) -> (r: Option<Vec<String>>)
    ensures
        match r {
            Some(l) => is_str_list(v@) && views(l@) == texts(v@->Arr_0),
            None => !is_str_list(v@),
        },
{
    let items = match v.as_array() {
        Some(a) => a,
        None => {
            return None;
        },
    };
    proof {
        lemma_items_view(items@);
    }
    let mut out: Vec<String> = Vec::new();
    let mut i: usize = 0;
    while i < items.len()
        invariant
            i <= items@.len(),
            v@ == JsonV::Arr(items_view(items@)),
            items_view(items@).len() == items@.len(),
            forall|k: int| 0 <= k < items@.len() ==> #[trigger] items_view(items@)[k] == items@[k]@,
            out@.len() == i,
            forall|k: int|
                0 <= k < i ==> (#[trigger] items_view(items@)[k]) is Str && out@[k]@
                    == items_view(items@)[k]->Str_0,
        decreases items@.len() - i,
    {
        assert(items_view(items@)[i as int] == items@[i as int]@);
        match items[i].as_str() {
            Some(s) => {
                out.push(s.to_owned());
            },
            None => {
                return None;
            },
        }
        i = i + 1;
    }
    assert(views(out@) =~= texts(items_view(items@)));
    Some(out)
}

fn is_string_table(v: &Json) -> (r: bool)
    ensures
        r == is_str_table(v@),
{
    if !is_object(v) {
        return false;
    }
    let entries = v.entries();
    let ghost m = v@->Obj_0;
    let ghost e = entries_view(entries@);
    let mut i: usize = 0;
    while i < entries.len()
        invariant
            i <= entries@.len(),
            e == entries_view(entries@),
            v@ == JsonV::Obj(m),
            lists(e, m),
            forall|k: int| 0 <= k < i ==> (#[trigger] e[k]).1 is Str,
        decreases entries@.len() - i,
    {
        assert(e[i as int].1 == entries@[i as int].1@);
        if !is_string(&entries[i].1) {
            assert(m.dom().contains(e[i as int].0));
            return false;
        }
        i = i + 1;
    }
    assert forall|k: Seq<char>| #[trigger] m.dom().contains(k) implies m[k] is Str by {
        let j = choose|j: int| 0 <= j < e.len() && (#[trigger] e[j]).0 == k;
        assert(e[j].1 is Str);
    }
    true
}

fn table_of(v: &Json, names: &Vec<&str>) -> (r: Json)
    ensures
        r@ == as_table(v@, str_views(names@)),
{
    let values = match v.as_array() {
        Some(a) => a,
        None => {
            return v.dup();
        },
    };
    proof {
        lemma_items_view(values@);
    }
    let ghost all = items_view(values@);
    let ghost ns = str_views(names@);
    let mut out = Json::object();
    let mut i: usize = 0;
    while i < values.len() && i < names.len()
        invariant
            i <= values@.len(),
            i <= names@.len(),
            all == items_view(values@),
            all.len() == values@.len(),
            forall|k: int| 0 <= k < values@.len() ==> #[trigger] all[k] == values@[k]@,
            ns == str_views(names@),
            out@ == fielded(ns, all, i as int),
        decreases values@.len() - i,
    {
        assert(all[i as int] == values@[i as int]@);
        assert(ns[i as int] == names@[i as int]@);
        out = out.set(names[i], values[i].dup());
        i = i + 1;
    }
    out
}

fn decode_provider_table(o: &Json) -> (r: Option<ProviderConfig>)
    ensures
        match r {
            Some(p) => provider_in(o@) == Some(p@),
            None => provider_in(o@) is None,
        },
{
    if !is_object(o) {
        return None;
    }
    let timeout = number_or(o, "timeout_ms", default_timeout(), u64::MAX);
    let extra_headers = match o.get("extra_headers") {
        Some(h) => if is_string_table(h) {
            Some(h.dup())
        } else {
            return None;
        },
        None => None,
    };
    let extra_params = match o.get("extra_params") {
        Some(p) => if is_object(p) {
            Some(p.dup())
        } else {
            return None;
        },
        None => None,
    };
    let drop_params = match o.get("drop_params") {
        Some(d) => match string_list(d) {
            Some(l) => Some(l),
            None => {
                return None;
            },
        },
        None => None,
    };
    match (
        o.get_str("base_url"),
        o.get_str("format"),
        maybe_text(o, "api_key"),
        maybe_text(o, "api_key_env"),
        maybe_text(o, "api_key_file"),
        timeout,
    ) {
        (
            Some(base_url),
            Some(format),
            Some(api_key),
            Some(api_key_env),
            Some(api_key_file),
            Some(timeout_ms),
        ) => Some(
            ProviderConfig {
                base_url: base_url.to_owned(),
                api_key,
                api_key_env,
                api_key_file,
                format: format.to_owned(),
                timeout_ms,
                extra_headers,
                extra_params,
                drop_params,
            },
        ),
        _ => None,
    }
}

fn decode_provider(v: &Json) -> (r: Option<ProviderConfig>)
    ensures
        match r {
            Some(p) => provider_of(v@) == Some(p@),
            None => provider_of(v@) is None,
        },
{
    let mut names: Vec<&str> = Vec::new();
    names.push("base_url");
    names.push("api_key");
    names.push("api_key_env");
    names.push("api_key_file");
    names.push("format");
    names.push("timeout_ms");
    names.push("extra_headers");
    names.push("extra_params");
    names.push("drop_params");
    assert(str_views(names@) =~= provider_fields());
    decode_provider_table(&table_of(v, &names))
}

fn decode_route_table(o: &Json) -> (r: Option<RouteConfig>)
    ensures
        match r {
            Some(p) => route_in(o@) == Some(p@),
            None => route_in(o@) is None,
        },
{
    if !is_object(o) {
        return None;
    }
    match (
        o.get_str("model"),
        number_or(o, "context_window", default_context_window(), u64::MAX),
        maybe_text(o, "default_reasoning_effort"),
        maybe_text(o, "description"),
    ) {
        (
            Some(model),
            Some(context_window),
            Some(default_reasoning_effort),
            Some(description),
        ) => Some(
            RouteConfig {
                model: model.to_owned(),
                context_window,
                default_reasoning_effort,
                description,
            },
        ),
        _ => None,
    }
}

fn decode_route(v: &Json) -> (r: Option<RouteConfig>)
    ensures
        match r {
            Some(p) => route_of(v@) == Some(p@),
            None => route_of(v@) is None,
        },
{
    let mut names: Vec<&str> = Vec::new();
    names.push("model");
    names.push("context_window");
    names.push("default_reasoning_effort");
    names.push("description");
    assert(str_views(names@) =~= route_fields());
    decode_route_table(&table_of(v, &names))
}

fn decode_providers(o: &Json) -> (r: Option<Vec<(String, ProviderConfig)>>)
    ensures
        match r {
            Some(l) => providers_ok(o@) && lists_providers(o@, providers_view(l@)),
            None => !providers_ok(o@),
        },
{
    if !is_object(o) {
        return None;
    }
    let entries = o.entries();
    let ghost m = o@->Obj_0;
    let ghost e = entries_view(entries@);
    let mut out: Vec<(String, ProviderConfig)> = Vec::new();
    let mut i: usize = 0;
    while i < entries.len()
        invariant
            i <= entries@.len(),
            e == entries_view(entries@),
            o@ == JsonV::Obj(m),
            lists(e, m),
            out@.len() == i,
            forall|k: int|
                0 <= k < i ==> (#[trigger] out@[k]).0@ == e[k].0 && provider_of(e[k].1) == Some(
                    out@[k].1@,
                ),
        decreases entries@.len() - i,
    {
        assert(e[i as int].1 == entries@[i as int].1@);
        match decode_provider(&entries[i].1) {
            Some(p) => {
                out.push((entries[i].0.clone(), p));
            },
            None => {
                assert(m.dom().contains(e[i as int].0));
                return None;
            },
        }
        i = i + 1;
    }
    proof {
        let l = providers_view(out@);
        assert forall|k: Seq<char>| #[trigger] m.dom().contains(k) implies provider_of(
            m[k],
        ) is Some by {
            let j = choose|j: int| 0 <= j < e.len() && (#[trigger] e[j]).0 == k;
            assert(out@[j].0@ == e[j].0);
        }
        assert forall|a: int| 0 <= a < l.len() implies o@.get((#[trigger] l[a]).0) is Some
            && provider_of(o@.at(l[a].0)) == Some(l[a].1) by {
            assert(out@[a].0@ == e[a].0);
        }
        assert forall|a: int, b: int| 0 <= a < b < l.len() implies (#[trigger] l[a]).0 != (
        #[trigger] l[b]).0 by {
            assert(out@[a].0@ == e[a].0);
            assert(out@[b].0@ == e[b].0);
        }
        assert forall|k: Seq<char>| #![trigger o@.get(k)] o@.get(k) is Some implies exists|a: int|
            0 <= a < l.len() && (#[trigger] l[a]).0 == k by {
            let j = choose|j: int| 0 <= j < e.len() && (#[trigger] e[j]).0 == k;
            assert(out@[j].0@ == e[j].0);
            assert(l[j].0 == k);
        }
    }
    Some(out)
}

fn decode_routes(o: &Json) -> (r: Option<Vec<(String, RouteConfig)>>)
    ensures
        match r {
            Some(l) => routes_ok(o@) && lists_routes(o@, routes_view(l@)),
            None => !routes_ok(o@),
        },
{
    if !is_object(o) {
        return None;
    }
    let entries = o.entries();
    let ghost m = o@->Obj_0;
    let ghost e = entries_view(entries@);
    let mut out: Vec<(String, RouteConfig)> = Vec::new();
    let mut i: usize = 0;
    while i < entries.len()
        invariant
            i <= entries@.len(),
            e == entries_view(entries@),
            o@ == JsonV::Obj(m),
            lists(e, m),
            out@.len() == i,
            forall|k: int|
                0 <= k < i ==> (#[trigger] out@[k]).0@ == e[k].0 && route_of(e[k].1) == Some(
                    out@[k].1@,
                ),
        decreases entries@.len() - i,
    {
        assert(e[i as int].1 == entries@[i as int].1@);
        match decode_route(&entries[i].1) {
            Some(p) => {
                out.push((entries[i].0.clone(), p));
            },
            None => {
                assert(m.dom().contains(e[i as int].0));
                return None;
            },
        }
        i = i + 1;
    }
    proof {
        let l = routes_view(out@);
        assert forall|k: Seq<char>| #[trigger] m.dom().contains(k) implies route_of(m[k]) is Some by {
            let j = choose|j: int| 0 <= j < e.len() && (#[trigger] e[j]).0 == k;
            assert(out@[j].0@ == e[j].0);
        }
        assert forall|a: int| 0 <= a < l.len() implies o@.get((#[trigger] l[a]).0) is Some
            && route_of(o@.at(l[a].0)) == Some(l[a].1) by {
            assert(out@[a].0@ == e[a].0);
        }
        assert forall|a: int, b: int| 0 <= a < b < l.len() implies (#[trigger] l[a]).0 != (
        #[trigger] l[b]).0 by {
            assert(out@[a].0@ == e[a].0);
            assert(out@[b].0@ == e[b].0);
        }
        assert forall|k: Seq<char>| #![trigger o@.get(k)] o@.get(k) is Some implies exists|a: int|
            0 <= a < l.len() && (#[trigger] l[a]).0 == k by {
            let j = choose|j: int| 0 <= j < e.len() && (#[trigger] e[j]).0 == k;
            assert(out@[j].0@ == e[j].0);
            assert(l[j].0 == k);
        }
    }
    Some(out)
}

fn decode_server_table(o: &Json) -> (r: Option<ServerConfig>)
    ensures
        match r {
            Some(s) => server_in(o@) == Some((s.host@, s.port)),
            None => server_in(o@) is None,
        },
{
    if !is_object(o) {
        return None;
    }
    match (text_or(o, "host", "127.0.0.1"), number_or(o, "port", 8787, 65535)) {
        (Some(host), Some(port)) => Some(ServerConfig { host, port: port as u16 }),
        _ => None,
    }
}

fn decode_server(v: &Json) -> (r: Option<ServerConfig>)
    ensures
        match r {
            Some(s) => server_of(v@) == Some((s.host@, s.port)),
            None => server_of(v@) is None,
        },
{
    let mut names: Vec<&str> = Vec::new();
    names.push("host");
    names.push("port");
    assert(str_views(names@) =~= server_fields());
    decode_server_table(&table_of(v, &names))
}

fn decode_session_table(o: &Json) -> (r: Option<SessionConfig>)
    ensures
        r == session_in(o@),
{
    if !is_object(o) {
        return None;
    }
    match (
        number_or(o, "ttl_hours", 168, u64::MAX),
        number_or(o, "max_sessions", 256, usize::MAX as u64),
        number_or(o, "max_memory_mb", 512, usize::MAX as u64),
    ) {
        (Some(ttl_hours), Some(sessions), Some(memory)) => Some(
            SessionConfig {
                ttl_hours,
                max_sessions: sessions as usize,
                max_memory_mb: memory as usize,
            },
        ),
        _ => None,
    }
}

fn decode_session(v: &Json) -> (r: Option<SessionConfig>)
    ensures
        r == session_of(v@),
{
    let mut names: Vec<&str> = Vec::new();
    names.push("ttl_hours");
    names.push("max_sessions");
    names.push("max_memory_mb");
    assert(str_views(names@) =~= session_fields());
    decode_session_table(&table_of(v, &names))
}

fn decode_quirks_table(o: &Json) -> (r: Option<QuirksConfig>)
    ensures
        match r {
            Some(q) => quirks_in(o@) == Some(views(q.disabled@)),
            None => quirks_in(o@) is None,
        },
{
    if !is_object(o) {
        return None;
    }
    match o.get("disabled") {
        Some(d) => match string_list(d) {
            Some(disabled) => Some(QuirksConfig { disabled }),
            None => None,
        },
        None => {
            let disabled: Vec<String> = Vec::new();
            assert(views(disabled@) =~= Seq::<Seq<char>>::empty());
            Some(QuirksConfig { disabled })
        },
    }
}

fn decode_quirks(v: &Json) -> (r: Option<QuirksConfig>)
    ensures
        match r {
            Some(q) => quirks_of(v@) == Some(views(q.disabled@)),
            None => quirks_of(v@) is None,
        },
{
    let mut names: Vec<&str> = Vec::new();
    names.push("disabled");
    assert(str_views(names@) =~= quirks_fields());
    decode_quirks_table(&table_of(v, &names))
}

fn get_section(doc: &Json, k: &str) -> (r: Json)
    ensures
        r@ == section(doc@, k@),
{
    match doc.get(k) {
        Some(v) => v.dup(),
        None => Json::object(),
    }
}

fn unreadable(message: &str) -> (r: Result<Config, ConfigError>)
    ensures
        r matches Err(e) && e@ == ErrorV::Parse(message@),
{
    Err(ConfigError::Parse(message.to_owned()))
}

impl Config {
    /// The configuration that a document describes.
    pub fn from_document(doc: &Json) -> (r: Result<Config, ConfigError>)
        ensures
            read_as(doc@, r),
    {
        let server = match decode_server(&get_section(doc, "server")) {
            Some(s) => s,
            None => {
                return unreadable("invalid [server] section");
            },
        };
        let providers = match decode_providers(&get_section(doc, "providers")) {
            Some(s) => s,
            None => {
                return unreadable("invalid [providers] section");
            },
        };
        let routes = match decode_routes(&get_section(doc, "routes")) {
            Some(s) => s,
            None => {
                return unreadable("invalid [routes] section");
            },
        };
        let session = match decode_session(&get_section(doc, "session")) {
            Some(s) => s,
            None => {
                return unreadable("invalid [session] section");
            },
        };
        let quirks = match decode_quirks(&get_section(doc, "quirks")) {
            Some(s) => s,
            None => {
                return unreadable("invalid [quirks] section");
            },
        };
        Ok(Config { server, providers, routes, session, quirks })
    }

    /// Read a configuration out of a TOML text. It is not validated yet: see
    /// [`Config::validate`].
    pub fn parse_str(text: &str) -> (r: Result<Config, ConfigError>)
        ensures
            match toml_parse(text@) {
                Ok(doc) => read_as(doc, r),
                Err(m) => r matches Err(e) && e@ == ErrorV::Parse(m),
            },
    {
        match Json::parse_toml(text) {
            Ok(doc) => Config::from_document(&doc),
            Err(m) => Err(ConfigError::Parse(m)),
        }
    }
}

/// The message of an error.
pub open spec fn error_text(e: ErrorV) -> Seq<char> {
    match e {
        ErrorV::MissingSlash(k) => "route key '"@ + k
            + "' must contain '/' (format: provider/alias)"@,
        ErrorV::UnknownProvider { key, provider, available } => "route key '"@ + key
            + "': provider '"@ + provider + "' not found in [providers] (available: "@ + available
            + ")"@,
        ErrorV::DuplicateRoute(k) => "duplicate route key '"@ + k + "'"@,
        ErrorV::MissingApiKey(p) => "provider '"@ + p
            + "' has no API key (set api_key, api_key_env, or api_key_file)"@,
        ErrorV::InvalidFormat(p, f) => "provider '"@ + p
            + "': format must be 'chat' or 'responses', got '"@ + f + "'"@,
        ErrorV::ManagedParamViolation { provider, field, key } => "provider '"@ + provider + "': "@
            + field + " key '"@ + key
            + "' must not be empty or name a router-managed field (model|messages|tools|stream)"@,
        ErrorV::InvalidReasoningEffort { key, effort } => "route '"@ + key
            + "': default_reasoning_effort must be one of none|minimal|low|medium|high|xhigh|max|ultra, got '"@
            + effort + "'"@,
        ErrorV::Parse(m) => m,
    }
}

impl ConfigError {
    /// The message that tells the user what is wrong.
    pub fn message(&self) -> (r: String)
        ensures
            r@ == error_text(self@),
    {
        let mut out = String::new();
        match self {
            ConfigError::MissingSlash(k) => {
                out.append("route key '");
                out.append(k.as_str());
                out.append("' must contain '/' (format: provider/alias)");
            },
            ConfigError::UnknownProvider { key, provider, available } => {
                out.append("route key '");
                out.append(key.as_str());
                out.append("': provider '");
                out.append(provider.as_str());
                out.append("' not found in [providers] (available: ");
                out.append(available.as_str());
                out.append(")");
            },
            ConfigError::DuplicateRoute(k) => {
                out.append("duplicate route key '");
                out.append(k.as_str());
                out.append("'");
            },
            ConfigError::MissingApiKey(p) => {
                out.append("provider '");
                out.append(p.as_str());
                out.append("' has no API key (set api_key, api_key_env, or api_key_file)");
            },
            ConfigError::InvalidFormat(p, f) => {
                out.append("provider '");
                out.append(p.as_str());
                out.append("': format must be 'chat' or 'responses', got '");
                out.append(f.as_str());
                out.append("'");
            },
            ConfigError::ManagedParamViolation { provider, field, key } => {
                out.append("provider '");
                out.append(provider.as_str());
                out.append("': ");
                out.append(field.as_str());
                out.append(" key '");
                out.append(key.as_str());
                out.append(
                    "' must not be empty or name a router-managed field (model|messages|tools|stream)",
                );
            },
            ConfigError::InvalidReasoningEffort { key, effort } => {
                out.append("route '");
                out.append(key.as_str());
                out.append(
                    "': default_reasoning_effort must be one of none|minimal|low|medium|high|xhigh|max|ultra, got '",
                );
                out.append(effort.as_str());
                out.append("'");
            },
            ConfigError::Parse(m) => {
                out.append(m.as_str());
            },
        }
        assert(out@ =~= error_text(self@));
        out
    }
}

/// A result of routes with `done` put before them.
spec fn after_prefix(
    done: Seq<(Seq<char>, ValidatedRouteV)>,
    rest: Result<Seq<(Seq<char>, ValidatedRouteV)>, ErrorV>,
) -> Result<Seq<(Seq<char>, ValidatedRouteV)>, ErrorV> {
    match rest {
        Ok(r) => Ok(done + r),
        Err(e) => Err(e),
    }
}

proof fn lemma_empty_prefix(rest: Result<Seq<(Seq<char>, ValidatedRouteV)>, ErrorV>)
    ensures
        after_prefix(Seq::empty(), rest) == rest,
{
    if let Ok(r) = rest {
        assert(Seq::<(Seq<char>, ValidatedRouteV)>::empty() + r =~= r);
    }
}

proof fn lemma_prefix_push(
    done: Seq<(Seq<char>, ValidatedRouteV)>,
    x: (Seq<char>, ValidatedRouteV),
    rest: Result<Seq<(Seq<char>, ValidatedRouteV)>, ErrorV>,
)
    ensures
        after_prefix(done.push(x), rest) == after_prefix(done, after_prefix(seq![x], rest)),
{
    if let Ok(r) = rest {
        assert(done.push(x) + r =~= done + (seq![x] + r));
    }
}

/// Whether a quirk is on: its name is not in the list of disabled ones, in any
/// case.
pub open spec fn quirk_on(disabled: Seq<Seq<char>>, name: Seq<char>) -> bool {
    forall|i: int| 0 <= i < disabled.len() ==> lowered(#[trigger] disabled[i]) != lowered(name)
}

/// The position of the route of that key, at or after `i`.
pub open spec fn route_at(
    routes: Seq<(Seq<char>, ValidatedRouteV)>,
    key: Seq<char>,
    i: int,
) -> Option<int>
    decreases routes.len() - i,
{
    if i < 0 || i >= routes.len() {
        None
    } else if routes[i].0 == key {
        Some(i)
    } else {
        route_at(routes, key, i + 1)
    }
}

impl ValidatedConfig {
    /// Whether a quirk is enabled; names are compared without regard to case.
    pub fn quirk_enabled(&self, name: &str) -> (r: bool)
        ensures
            r == quirk_on(self@.disabled, name@),
    {
        let ghost all = self@.disabled;
        let mut i: usize = 0;
        while i < self.quirks.disabled.len()
            invariant
                i <= self.quirks.disabled@.len(),
                all == views(self.quirks.disabled@),
                forall|k: int| 0 <= k < i ==> lowered(#[trigger] all[k]) != lowered(name@),
            decreases self.quirks.disabled@.len() - i,
        {
            if same_ignoring_case(self.quirks.disabled[i].as_str(), name) {
                assert(lowered(all[i as int]) == lowered(name@));
                return false;
            }
            i = i + 1;
        }
        true
    }

    /// The route of that key.
    pub fn route(&self, key: &str) -> (r: Option<&ValidatedRoute>)
        ensures
            match r {
                Some(v) => route_at(self@.routes, key@, 0) matches Some(p) && self@.routes[p].1
                    == v@,
                None => route_at(self@.routes, key@, 0) is None,
            },
    {
        let ghost all = self@.routes;
        let mut i: usize = 0;
        while i < self.routes.len()
            invariant
                i <= self.routes@.len(),
                all == validated_view(self.routes@),
                route_at(all, key@, 0) == route_at(all, key@, i as int),
            decreases self.routes@.len() - i,
        {
            if same(self.routes[i].0.as_str(), key) {
                return Some(&self.routes[i].1);
            }
            i = i + 1;
        }
        None
    }
}

/// The path of the configuration when none is given: the one from the
/// environment; else the current default file where it exists; else the legacy
/// one where that exists; else the current default. The flag tells the legacy
/// one.
pub fn resolve_default_config(
    env: Option<&str>,
    current: &str,
    current_exists: bool,
    legacy: &str,
    legacy_exists: bool,
) -> (r: (String, bool))
    ensures
        (r.0@, r.1) == (match env {
            Some(e) => (e@, false),
            None => if !current_exists && legacy_exists {
                (legacy@, true)
            } else {
                (current@, false)
            },
        }),
{
    match env {
        Some(e) => (e.to_owned(), false),
        None => if !current_exists && legacy_exists {
            (legacy.to_owned(), true)
        } else {
            (current.to_owned(), false)
        },
    }
}

/// A valid configuration has a route for every route key, in order.
pub proof fn valid_routes_keep_their_keys(c: ConfigV)
    requires
        validated(c) is Ok,
    ensures
        validated(c)->Ok_0.routes.len() == c.routes.len(),
        forall|i: int|
            0 <= i < c.routes.len() ==> (#[trigger] validated(c)->Ok_0.routes[i]).0
                == c.routes[i].0 && validated(c)->Ok_0.routes[i].1.route == c.routes[i].1,
{
    lemma_routes_keys(c, 0);
}

proof fn lemma_routes_keys(c: ConfigV, i: int)
    requires
        0 <= i <= c.routes.len(),
        routes_result(c, i) is Ok,
    ensures
        routes_result(c, i)->Ok_0.len() == c.routes.len() - i,
        forall|k: int|
            0 <= k < c.routes.len() - i ==> (#[trigger] routes_result(c, i)->Ok_0[k]).0
                == c.routes[i + k].0 && routes_result(c, i)->Ok_0[k].1.route == c.routes[i + k].1,
    decreases c.routes.len() - i,
{
    if i < c.routes.len() {
        lemma_routes_keys(c, i + 1);
        let rest = routes_result(c, i + 1)->Ok_0;
        let all = routes_result(c, i)->Ok_0;
        assert forall|k: int| 0 <= k < c.routes.len() - i implies (#[trigger] all[k]).0
            == c.routes[i + k].0 && all[k].1.route == c.routes[i + k].1 by {
            if k > 0 {
                assert(all[k] == rest[k - 1]);
            }
        }
    }
}

/// In a valid configuration no route key stands twice.
pub proof fn valid_route_keys_are_unique(c: ConfigV, i: int, j: int)
    requires
        validated(c) is Ok,
        0 <= i < j < c.routes.len(),
    ensures
        c.routes[i].0 != c.routes[j].0,
{
    lemma_route_ok(c, 0, j);
    if c.routes[i].0 == c.routes[j].0 {
        assert(stands_before(c.routes, c.routes[j].0, j));
    }
}

proof fn lemma_route_ok(c: ConfigV, i: int, j: int)
    requires
        0 <= i <= j < c.routes.len(),
        routes_result(c, i) is Ok,
    ensures
        route_result(c, j) is Ok,
    decreases j - i,
{
    if i < j {
        lemma_route_ok(c, i + 1, j);
    }
}

} // verus!
