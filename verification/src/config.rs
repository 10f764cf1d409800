//! Configuration and its defaults.

use crate::strs::{concat3, decimal, decimal_string, replace, replaced, str_eq, views};
use vstd::prelude::*;

verus! {

/// The configuration of a Fugue server.
#[derive(Debug)]
pub struct Config {
    pub server: ServerConfig,
    pub backends: Vec<BackendConfig>,
    pub auth: AuthConfig,
    pub cache: CacheConfig,
    pub social: SocialConfig,
}

/// Where the server listens and what it logs.
#[derive(Debug)]
pub struct ServerConfig {
    pub host: String,
    pub port: u16,
    pub log_level: String,
}

/// A backend.
#[derive(Debug)]
pub struct BackendConfig {
    pub name: String,
    pub url: String,
    pub username: String,
    pub password: String,
    /// Source preference for duplicates (higher = preferred).
    pub weight: i32,
}

/// Who may use the proxy.
#[derive(Debug)]
pub struct AuthConfig {
    pub users: Vec<UserCredential>,
}

/// A user of the proxy.
#[derive(Debug)]
pub struct UserCredential {
    pub username: String,
    pub password: String,
}

/// A user, as characters.
pub struct UserCredentialView {
    pub username: Seq<char>,
    pub password: Seq<char>,
}

impl View for UserCredential {
    type V = UserCredentialView;

    open spec fn view(&self) -> UserCredentialView {
        UserCredentialView { username: self.username@, password: self.password@ }
    }
}

impl View for AuthConfig {
    type V = Seq<UserCredentialView>;

    open spec fn view(&self) -> Seq<UserCredentialView> {
        views(self.users@)
    }
}

/// Where the cache lives and how often it is refreshed.
#[derive(Debug)]
pub struct CacheConfig {
    pub db_path: String,
    pub refresh_interval_secs: u64,
}

/// Whether and how this node shares with friends.
#[derive(Debug)]
pub struct SocialConfig {
    pub enabled: bool,
    pub display_name: String,
    pub streaming: StreamingConfig,
}

/// The quality of streams to and from friends.
#[derive(Debug)]
pub struct StreamingConfig {
    /// Max bitrate (kbps) to serve friends; 0 is no limit.
    pub max_serve_bitrate: u32,
    /// Format for friends; "raw" is the original.
    pub serve_format: String,
    /// Preferred bitrate from friends; 0 is automatic.
    pub preferred_bitrate: u32,
    /// Preferred format from friends; "auto" accepts any.
    pub preferred_format: String,
}

/// The log level if none is configured.
pub fn default_log_level() -> (r: String)
    ensures
        r@ == "info"@,
{
    "info".to_owned()
}

/// The listen address if none is configured.
pub fn default_host() -> (r: String)
    ensures
        r@ == "0.0.0.0"@,
{
    "0.0.0.0".to_owned()
}

/// The listen port if none is configured.
pub fn default_port() -> (r: u16)
    ensures
        r == 4533,
{
    4533
}

/// The database path if none is configured.
pub fn default_db_path() -> (r: String)
    ensures
        r@ == "fugue.db"@,
{
    "fugue.db".to_owned()
}

/// The seconds between cache refreshes if none are configured.
pub fn default_refresh_interval() -> (r: u64)
    ensures
        r == 300,
{
    300
}

/// The display name if none is configured.
pub fn default_display_name() -> (r: String)
    ensures
        r@ == "Fugue User"@,
{
    "Fugue User".to_owned()
}

impl Default for CacheConfig {
    fn default() -> (r: Self)
        ensures
            r.db_path@ == "fugue.db"@,
            r.refresh_interval_secs == 300,
    {
        CacheConfig {
            db_path: default_db_path(),
            refresh_interval_secs: default_refresh_interval(),
        }
    }
}

impl Default for StreamingConfig {
    fn default() -> (r: Self)
        ensures
            r.max_serve_bitrate == 0,
            r.serve_format@ == "raw"@,
            r.preferred_bitrate == 0,
            r.preferred_format@ == "auto"@,
    {
        StreamingConfig {
            max_serve_bitrate: 0,
            serve_format: "raw".to_owned(),
            preferred_bitrate: 0,
            preferred_format: "auto".to_owned(),
        }
    }
}

impl Default for SocialConfig {
    fn default() -> (r: Self)
        ensures
            !r.enabled,
            r.display_name@ == "Fugue User"@,
            r.streaming.max_serve_bitrate == 0,
            r.streaming.serve_format@ == "raw"@,
            r.streaming.preferred_bitrate == 0,
            r.streaming.preferred_format@ == "auto"@,
    {
        SocialConfig {
            enabled: false,
            display_name: default_display_name(),
            streaming: StreamingConfig::default(),
        }
    }
}

/// The setting that an environment variable overrides, by what follows
/// `FUGUE_` in its name.
pub open spec fn setting_of(var: Seq<char>) -> Option<Seq<char>> {
    if var == "SERVER_HOST"@ {
        Some("server.host"@)
    } else if var == "SERVER_PORT"@ {
        Some("server.port"@)
    } else if var == "SERVER_LOG_LEVEL"@ {
        Some("server.log_level"@)
    } else if var == "AUTH_USERS"@ {
        Some("auth.users"@)
    } else if var == "BACKENDS"@ {
        Some("backends"@)
    } else if var == "CACHE_DB_PATH"@ {
        Some("cache.db_path"@)
    } else if var == "CACHE_REFRESH_INTERVAL_SECS"@ {
        Some("cache.refresh_interval_secs"@)
    } else if var == "SOCIAL_ENABLED"@ {
        Some("social.enabled"@)
    } else if var == "SOCIAL_DISPLAY_NAME"@ {
        Some("social.display_name"@)
    } else if var == "SOCIAL_STREAMING_MAX_SERVE_BITRATE"@ {
        Some("social.streaming.max_serve_bitrate"@)
    } else if var == "SOCIAL_STREAMING_SERVE_FORMAT"@ {
        Some("social.streaming.serve_format"@)
    } else if var == "SOCIAL_STREAMING_PREFERRED_BITRATE"@ {
        Some("social.streaming.preferred_bitrate"@)
    } else if var == "SOCIAL_STREAMING_PREFERRED_FORMAT"@ {
        Some("social.streaming.preferred_format"@)
    } else {
        None
    }
}

/// The setting that an environment variable overrides, by what follows
/// `FUGUE_` in its name.
pub fn setting_path(var: &str) -> (r: Option<String>)
    ensures
        crate::strs::opt_text(r) == setting_of(var@),
{
    if str_eq(var, "SERVER_HOST") {
        Some("server.host".to_owned())
    } else if str_eq(var, "SERVER_PORT") {
        Some("server.port".to_owned())
    } else if str_eq(var, "SERVER_LOG_LEVEL") {
        Some("server.log_level".to_owned())
    } else if str_eq(var, "AUTH_USERS") {
        Some("auth.users".to_owned())
    } else if str_eq(var, "BACKENDS") {
        Some("backends".to_owned())
    } else if str_eq(var, "CACHE_DB_PATH") {
        Some("cache.db_path".to_owned())
    } else if str_eq(var, "CACHE_REFRESH_INTERVAL_SECS") {
        Some("cache.refresh_interval_secs".to_owned())
    } else if str_eq(var, "SOCIAL_ENABLED") {
        Some("social.enabled".to_owned())
    } else if str_eq(var, "SOCIAL_DISPLAY_NAME") {
        Some("social.display_name".to_owned())
    } else if str_eq(var, "SOCIAL_STREAMING_MAX_SERVE_BITRATE") {
        Some("social.streaming.max_serve_bitrate".to_owned())
    } else if str_eq(var, "SOCIAL_STREAMING_SERVE_FORMAT") {
        Some("social.streaming.serve_format".to_owned())
    } else if str_eq(var, "SOCIAL_STREAMING_PREFERRED_BITRATE") {
        Some("social.streaming.preferred_bitrate".to_owned())
    } else if str_eq(var, "SOCIAL_STREAMING_PREFERRED_FORMAT") {
        Some("social.streaming.preferred_format".to_owned())
    } else {
        None
    }
}

impl ServerConfig {
    /// Where a path of the running server is reached from this machine. A
    /// server that listens everywhere is reached by the loopback address.
    pub fn local_url(&self, path: &str) -> (r: String)
        ensures
            r@ == replaced(
                "http://"@ + self.host@ + ":"@ + decimal(self.port as nat) + path@,
                "://0.0.0.0:"@,
                "://127.0.0.1:"@,
            ),
    {
        proof {
            reveal_strlit("://0.0.0.0:");
        }
        let mut url = concat3("http://", self.host.as_str(), ":");
        url.append(decimal_string(self.port as u128).as_str());
        url.append(path);
        replace(url.as_str(), "://0.0.0.0:", "://127.0.0.1:")
    }

    /// Where the server listens.
    pub fn listen_address(&self) -> (r: String)
        ensures
            r@ == self.host@ + ":"@ + decimal(self.port as nat),
    {
        concat3(self.host.as_str(), ":", decimal_string(self.port as u128).as_str())
    }
}

/// Which variable sets which setting; no other variable sets any.
pub proof fn variables_name_their_settings(var: Seq<char>)
    ensures
        setting_of(var) is Some <==> seq![
            "SERVER_HOST"@,
            "SERVER_PORT"@,
            "SERVER_LOG_LEVEL"@,
            "AUTH_USERS"@,
            "BACKENDS"@,
            "CACHE_DB_PATH"@,
            "CACHE_REFRESH_INTERVAL_SECS"@,
            "SOCIAL_ENABLED"@,
            "SOCIAL_DISPLAY_NAME"@,
            "SOCIAL_STREAMING_MAX_SERVE_BITRATE"@,
            "SOCIAL_STREAMING_SERVE_FORMAT"@,
            "SOCIAL_STREAMING_PREFERRED_BITRATE"@,
            "SOCIAL_STREAMING_PREFERRED_FORMAT"@,
        ].contains(var),
        setting_of("SERVER_HOST"@) == Some("server.host"@),
        setting_of("SERVER_PORT"@) == Some("server.port"@),
        setting_of("SERVER_LOG_LEVEL"@) == Some("server.log_level"@),
        setting_of("AUTH_USERS"@) == Some("auth.users"@),
        setting_of("BACKENDS"@) == Some("backends"@),
        setting_of("CACHE_DB_PATH"@) == Some("cache.db_path"@),
        setting_of("CACHE_REFRESH_INTERVAL_SECS"@) == Some("cache.refresh_interval_secs"@),
        setting_of("SOCIAL_ENABLED"@) == Some("social.enabled"@),
        setting_of("SOCIAL_DISPLAY_NAME"@) == Some("social.display_name"@),
        setting_of("SOCIAL_STREAMING_MAX_SERVE_BITRATE"@) == Some("social.streaming.max_serve_bitrate"@),
        setting_of("SOCIAL_STREAMING_SERVE_FORMAT"@) == Some("social.streaming.serve_format"@),
        setting_of("SOCIAL_STREAMING_PREFERRED_BITRATE"@) == Some("social.streaming.preferred_bitrate"@),
        setting_of("SOCIAL_STREAMING_PREFERRED_FORMAT"@) == Some("social.streaming.preferred_format"@),
{
    let names = seq![
        "SERVER_HOST"@,
        "SERVER_PORT"@,
        "SERVER_LOG_LEVEL"@,
        "AUTH_USERS"@,
        "BACKENDS"@,
        "CACHE_DB_PATH"@,
        "CACHE_REFRESH_INTERVAL_SECS"@,
        "SOCIAL_ENABLED"@,
        "SOCIAL_DISPLAY_NAME"@,
        "SOCIAL_STREAMING_MAX_SERVE_BITRATE"@,
        "SOCIAL_STREAMING_SERVE_FORMAT"@,
        "SOCIAL_STREAMING_PREFERRED_BITRATE"@,
        "SOCIAL_STREAMING_PREFERRED_FORMAT"@,
    ];
    assert(names[0] == "SERVER_HOST"@);
    assert(names[1] == "SERVER_PORT"@);
    assert(names[2] == "SERVER_LOG_LEVEL"@);
    assert(names[3] == "AUTH_USERS"@);
    assert(names[4] == "BACKENDS"@);
    assert(names[5] == "CACHE_DB_PATH"@);
    assert(names[6] == "CACHE_REFRESH_INTERVAL_SECS"@);
    assert(names[7] == "SOCIAL_ENABLED"@);
    assert(names[8] == "SOCIAL_DISPLAY_NAME"@);
    assert(names[9] == "SOCIAL_STREAMING_MAX_SERVE_BITRATE"@);
    assert(names[10] == "SOCIAL_STREAMING_SERVE_FORMAT"@);
    assert(names[11] == "SOCIAL_STREAMING_PREFERRED_BITRATE"@);
    assert(names[12] == "SOCIAL_STREAMING_PREFERRED_FORMAT"@);
    reveal_strlit("SERVER_HOST");
    reveal_strlit("SERVER_PORT");
    reveal_strlit("SERVER_LOG_LEVEL");
    reveal_strlit("AUTH_USERS");
    reveal_strlit("BACKENDS");
    reveal_strlit("CACHE_DB_PATH");
    reveal_strlit("CACHE_REFRESH_INTERVAL_SECS");
    reveal_strlit("SOCIAL_ENABLED");
    reveal_strlit("SOCIAL_DISPLAY_NAME");
    reveal_strlit("SOCIAL_STREAMING_MAX_SERVE_BITRATE");
    reveal_strlit("SOCIAL_STREAMING_SERVE_FORMAT");
    reveal_strlit("SOCIAL_STREAMING_PREFERRED_BITRATE");
    reveal_strlit("SOCIAL_STREAMING_PREFERRED_FORMAT");
    assert("SERVER_HOST"@.len() == 11 && "SERVER_PORT"@.len() == 11);
    assert("SERVER_LOG_LEVEL"@.len() == 16 && "AUTH_USERS"@.len() == 10);
    assert("BACKENDS"@.len() == 8 && "CACHE_DB_PATH"@.len() == 13);
    assert("CACHE_REFRESH_INTERVAL_SECS"@.len() == 27 && "SOCIAL_ENABLED"@.len() == 14);
    assert("SOCIAL_DISPLAY_NAME"@.len() == 19);
    assert("SOCIAL_STREAMING_MAX_SERVE_BITRATE"@.len() == 34);
    assert("SOCIAL_STREAMING_SERVE_FORMAT"@.len() == 29);
    assert("SOCIAL_STREAMING_PREFERRED_BITRATE"@.len() == 34);
    assert("SOCIAL_STREAMING_PREFERRED_FORMAT"@.len() == 33);
    assert("SERVER_HOST"@[7] != "SERVER_PORT"@[7]);
    assert("SOCIAL_STREAMING_MAX_SERVE_BITRATE"@[17] != "SOCIAL_STREAMING_PREFERRED_BITRATE"@[17]);
}

} // verus!
