//! Defaults for the configuration of the image proxy: where credentials
//! come from, and as whom the proxy runs.

use crate::text::opt_text;
use vstd::prelude::*;

verus! {

/// The user as whom the proxy runs where the caller is root and asks for
/// nothing else.
pub const DEFAULT_UNPRIVILEGED_USER: &'static str = "nobody";

/// The program that serves as the proxy.
pub const SKOPEO: &'static str = "skopeo";

/// Where the data stream for container auth comes from.
#[derive(Debug, Clone, PartialEq, Eq)]
pub enum AuthData {
    /// A stream that the caller has opened.
    Stream,
    /// The file at this path, to be opened before privileges are dropped.
    File(String),
}

/// How the proxy is launched.
#[derive(Debug, Clone, PartialEq, Eq)]
pub enum SkopeoCommand {
    /// With a command that the caller has configured.
    Configured,
    /// As `binary`, run without privileges as `user`.
    Unprivileged { binary: String, user: String },
}

/// Configuration for the proxy, as far as the defaults touch it.
#[derive(Debug, Clone, PartialEq, Eq)]
pub struct ImageProxyConfig {
    /// Path to container auth file.
    pub authfile: Option<String>,
    /// Data stream for container auth.
    pub auth_data: Option<AuthData>,
    /// Do not use default container authentication paths.
    pub auth_anonymous: bool,
    /// How the proxy is launched, where the default is not to be used.
    pub skopeo_cmd: Option<SkopeoCommand>,
}

/// The mathematical content of an [`AuthData`].
pub enum AuthDataView {
    Stream,
    File(Seq<char>),
}

/// The mathematical content of a [`SkopeoCommand`].
pub enum SkopeoCommandView {
    Configured,
    Unprivileged { binary: Seq<char>, user: Seq<char> },
}

/// The mathematical content of an [`ImageProxyConfig`].
pub struct ProxyConfigView {
    pub authfile: Option<Seq<char>>,
    pub auth_data: Option<AuthDataView>,
    pub auth_anonymous: bool,
    pub skopeo_cmd: Option<SkopeoCommandView>,
}

impl View for AuthData {
    type V = AuthDataView;

    open spec fn view(&self) -> AuthDataView {
        match self {
            AuthData::Stream => AuthDataView::Stream,
            AuthData::File(p) => AuthDataView::File(p@),
        }
    }
}

impl View for SkopeoCommand {
    type V = SkopeoCommandView;

    open spec fn view(&self) -> SkopeoCommandView {
        match self {
            SkopeoCommand::Configured => SkopeoCommandView::Configured,
            SkopeoCommand::Unprivileged { binary, user } => SkopeoCommandView::Unprivileged {
                binary: binary@,
                user: user@,
            },
        }
    }
}

impl View for ImageProxyConfig {
    type V = ProxyConfigView;

    open spec fn view(&self) -> ProxyConfigView {
        ProxyConfigView {
            authfile: match self.authfile {
                Some(p) => Some(p@),
                None => None,
            },
            auth_data: match self.auth_data {
                Some(d) => Some(d@),
                None => None,
            },
            auth_anonymous: self.auth_anonymous,
            skopeo_cmd: match self.skopeo_cmd {
                Some(c) => Some(c@),
                None => None,
            },
        }
    }
}

impl Default for ImageProxyConfig {
    fn default() -> (c: ImageProxyConfig)
        ensures
            c.authfile is None,
            c.auth_data is None,
            !c.auth_anonymous,
            c.skopeo_cmd is None,
    {
        ImageProxyConfig { authfile: None, auth_data: None, auth_anonymous: false, skopeo_cmd: None }
    }
}

/// Whether a configuration says where credentials come from.
pub open spec fn auth_specified(c: ProxyConfigView) -> bool {
    c.auth_anonymous || c.authfile is Some || c.auth_data is Some
}

/// A configuration with its authentication settled: one that says nothing
/// takes the global auth file, where there is one, and is anonymous where
/// there is none.
pub open spec fn with_default_auth(c: ProxyConfigView, global_authfile: Option<Seq<char>>) -> ProxyConfigView {
    if auth_specified(c) {
        c
    } else {
        ProxyConfigView { authfile: global_authfile, auth_anonymous: global_authfile is None, ..c }
    }
}

/// A configuration with the isolation applied: where no command is
/// configured and a user is given, the proxy runs as that user, and an auth
/// file is turned into a stream that stays readable without privileges.
pub open spec fn with_isolation(c: ProxyConfigView, isolation_user: Option<Seq<char>>) -> ProxyConfigView {
    if c.skopeo_cmd is None && isolation_user is Some {
        ProxyConfigView {
            authfile: None,
            auth_data: match c.authfile {
                Some(p) => Some(AuthDataView::File(p)),
                None => c.auth_data,
            },
            auth_anonymous: c.auth_anonymous,
            skopeo_cmd: Some(
                SkopeoCommandView::Unprivileged { binary: SKOPEO@, user: isolation_user->Some_0 },
            ),
        }
    } else {
        c
    }
}

/// A configuration with the defaults merged in.
pub open spec fn merged(
    c: ProxyConfigView,
    isolation_user: Option<Seq<char>>,
    global_authfile: Option<Seq<char>>,
) -> ProxyConfigView {
    with_isolation(with_default_auth(c, global_authfile), isolation_user)
}

/// Whether the defaults will ask for the global auth file: they do where
/// the configuration does not say where credentials come from.
pub fn wants_global_authfile(config: &ImageProxyConfig) -> (r: bool)
    ensures
        r == !auth_specified(config@),
{
    !(config.auth_anonymous || config.authfile.is_some() || config.auth_data.is_some())
}

/// The user as whom the proxy is isolated by default: the unprivileged
/// user where the caller is root, none otherwise.
pub fn default_isolation_user(is_root: bool) -> (r: Option<&'static str>)
    ensures
        r is Some <==> is_root,
        r matches Some(u) ==> u@ == DEFAULT_UNPRIVILEGED_USER@,
{
    if is_root {
        Some(DEFAULT_UNPRIVILEGED_USER)
    } else {
        None
    }
}

/// Apply default configuration for container image pulls, with optional support
/// for isolation as an unprivileged user. `global_authfile` is the global
/// auth file, where there is one.
pub fn merge_default_container_proxy_opts_with_isolation(
    config: &mut ImageProxyConfig,
    isolation_user: Option<&str>,
    global_authfile: Option<&str>,
)
    ensures
        final(config)@ == merged(old(config)@, opt_text(isolation_user), opt_text(global_authfile)),
{
    let specified = config.auth_anonymous || config.authfile.is_some() || config.auth_data.is_some();
    if !specified {
        match global_authfile {
            Some(path) => {
                config.authfile = Some(String::from_str(path));
            },
            None => {
                // Without an auth file, force anonymous pulls, so that the
                // container stack does not look for one in its usual places.
                config.auth_anonymous = true;
            },
        }
    }
    // By default, drop privileges, unless the caller has configured the
    // command explicitly.
    if config.skopeo_cmd.is_none() {
        if let Some(user) = isolation_user {
            // Hand the auth file on as a stream, which stays readable once
            // privileges are dropped.
            let authfile = config.authfile.take();
            if let Some(path) = authfile {
                config.auth_data = Some(AuthData::File(path));
            }
            config.skopeo_cmd = Some(
                SkopeoCommand::Unprivileged {
                    binary: String::from_str(SKOPEO),
                    user: String::from_str(user),
                },
            );
        }
    }
}

/// Apply default configuration for container image pulls to an existing configuration.
/// For example, if `authfile` is not set, and `auth_anonymous` is `false`, and a global configuration file exists, it will be used.
///
/// If there is no configured explicit subprocess for skopeo, and the process is running
/// as root, then a default isolation of running the process via `nobody` will be applied.
pub fn merge_default_container_proxy_opts(
    config: &mut ImageProxyConfig,
    is_root: bool,
    global_authfile: Option<&str>,
)
    ensures
        final(config)@ == merged(
            old(config)@,
            if is_root {
                Some(DEFAULT_UNPRIVILEGED_USER@)
            } else {
                None
            },
            opt_text(global_authfile),
        ),
{
    let user = default_isolation_user(is_root);
    merge_default_container_proxy_opts_with_isolation(config, user, global_authfile)
}

/// Merging the defaults into a configuration a second time changes nothing.
pub proof fn lemma_merge_is_idempotent(
    c: ProxyConfigView,
    isolation_user: Option<Seq<char>>,
    global_authfile: Option<Seq<char>>,
)
    ensures
        merged(merged(c, isolation_user, global_authfile), isolation_user, global_authfile)
            == merged(c, isolation_user, global_authfile),
{
}

} // verus!
