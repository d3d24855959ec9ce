//! The server's configuration.

use vstd::prelude::*;

verus! {

/// The options that the server recognises.
#[derive(Debug)]
pub struct ConfigTomlServer {
    /// The administrator's token. Without one, every administrative request
    /// is let through.
    pub cgrpc_token: Option<String>,
    /// The address to listen on.
    pub host: String,
    /// Minutes between two reclaim cycles.
    pub clean_tasks: u64,
    /// The most tasks that one page of a listing holds.
    pub pagination_limit: u32,
    /// The age in seconds from which a task in progress is reclaimed.
    pub reclaim_threshold_seconds: u64,
}

/// The mathematical value of a [`ConfigTomlServer`].
pub struct ConfigTomlServerView {
    pub cgrpc_token: Option<Seq<char>>,
    pub host: Seq<char>,
    pub clean_tasks: u64,
    pub pagination_limit: u32,
    pub reclaim_threshold_seconds: u64,
}

/// The value of an optional text.
pub open spec fn opt_view(s: Option<String>) -> Option<Seq<char>> {
    match s {
        Some(t) => Some(t@),
        None => None,
    }
}

/// The configuration that holds where no option is set.
pub open spec fn default_server() -> ConfigTomlServerView {
    ConfigTomlServerView {
        cgrpc_token: None,
        host: "[::1]:50051"@,
        clean_tasks: 60,
        pagination_limit: u32::MAX,
        reclaim_threshold_seconds: 3600,
    }
}

impl View for ConfigTomlServer {
    type V = ConfigTomlServerView;

    open spec fn view(&self) -> ConfigTomlServerView {
        ConfigTomlServerView {
            cgrpc_token: opt_view(self.cgrpc_token),
            host: self.host@,
            clean_tasks: self.clean_tasks,
            pagination_limit: self.pagination_limit,
            reclaim_threshold_seconds: self.reclaim_threshold_seconds,
        }
    }
}

impl Default for ConfigTomlServer {
    fn default() -> (r: Self)
        ensures
            r@ == default_server(),
    {
        ConfigTomlServer {
            host: "[::1]:50051".to_owned(),
            cgrpc_token: None,
            clean_tasks: 60,
            pagination_limit: u32::MAX,
            reclaim_threshold_seconds: 3600,
        }
    }
}

impl Clone for ConfigTomlServer {
    fn clone(&self) -> (r: Self)
        ensures
            r@ == self@,
    {
        ConfigTomlServer {
            cgrpc_token: match &self.cgrpc_token {
                Some(t) => Some(t.clone()),
                None => None,
            },
            host: self.host.clone(),
            clean_tasks: self.clean_tasks,
            pagination_limit: self.pagination_limit,
            reclaim_threshold_seconds: self.reclaim_threshold_seconds,
        }
    }
}

/// The configuration of a running server. It is set once, at start.
#[derive(Debug)]
pub struct Config {
    pub config_toml: ConfigTomlServer,
}

impl View for Config {
    type V = ConfigTomlServerView;

    open spec fn view(&self) -> ConfigTomlServerView {
        self.config_toml@
    }
}

impl Default for Config {
    fn default() -> (r: Self)
        ensures
            r@ == default_server(),
    {
        Config { config_toml: ConfigTomlServer::default() }
    }
}

impl Clone for Config {
    fn clone(&self) -> (r: Self)
        ensures
            r@ == self@,
    {
        Config { config_toml: self.config_toml.clone() }
    }
}

impl Config {
    /// The configuration with the options of `config_toml`; where there are
    /// none, the defaults.
    pub fn new(config_toml: Option<ConfigTomlServer>) -> (r: Self)
        ensures
            r@ == (match config_toml {
                Some(c) => c@,
                None => default_server(),
            }),
    {
        match config_toml {
            Some(c) => Config { config_toml: c },
            None => Config::default(),
        }
    }

    /// The seconds between two reclaim cycles: the configured minutes, as far
    /// as a `u64` holds them.
    pub fn reclaim_period_seconds(&self) -> (r: u64)
        ensures
            r == if self.config_toml.clean_tasks * 60 <= u64::MAX {
                self.config_toml.clean_tasks * 60
            } else {
                u64::MAX as int
            },
    {
        if self.config_toml.clean_tasks <= u64::MAX / 60 {
            self.config_toml.clean_tasks * 60
        } else {
            u64::MAX
        }
    }
}

} // verus!
