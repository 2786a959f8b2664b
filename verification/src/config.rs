//! What the client is started with.
use vstd::prelude::*;

use crate::error::AircError;
use crate::text::glue2;

verus! {

/// The port of a server without and with transport encryption.
pub const PLAIN_PORT: u16 = 6667;

pub const TLS_PORT: u16 = 6697;

/// The name of the file that holds the configuration.
pub const CONFIG_FILE: &'static str = "config.toml";

#[derive(Debug)]
pub struct Config {
    pub server: String,
    pub channel: String,
    pub username: Option<String>,
    pub download_path: String,
    pub connection_timeout_secs: u64,
    pub dcc_timeout_secs: u64,
    pub tls: bool,
    pub port: Option<u16>,
}

pub fn default_server() -> (s: String)
    ensures
        s@ == "irc.undernet.org"@,
{
    "irc.undernet.org".to_owned()
}

pub fn default_channel() -> (s: String)
    ensures
        s@ == "#bookz"@,
{
    "#bookz".to_owned()
}

pub fn default_download_path() -> (s: String)
    ensures
        s@ == "./downloads/"@,
{
    "./downloads/".to_owned()
}

pub fn default_connection_timeout() -> (secs: u64)
    ensures
        secs == 30,
{
    30
}

pub fn default_dcc_timeout() -> (secs: u64)
    ensures
        secs == 300,
{
    300
}

/// `given` where there is one, else `kept`.
pub open spec fn preferred<T>(given: Option<T>, kept: T) -> T {
    match given {
        Some(value) => value,
        None => kept,
    }
}

impl Default for Config {
    fn default() -> (config: Self)
        ensures
            config.server@ == "irc.undernet.org"@,
            config.channel@ == "#bookz"@,
            config.username is None,
            config.download_path@ == "./downloads/"@,
            config.connection_timeout_secs == 30,
            config.dcc_timeout_secs == 300,
            !config.tls,
            config.port is None,
    {
        Config {
            server: default_server(),
            channel: default_channel(),
            username: None,
            download_path: default_download_path(),
            connection_timeout_secs: default_connection_timeout(),
            dcc_timeout_secs: default_dcc_timeout(),
            tls: false,
            port: None,
        }
    }
}

impl Clone for Config {
    fn clone(&self) -> (config: Self)
        ensures
            config == *self,
    {
        Config {
            server: self.server.clone(),
            channel: self.channel.clone(),
            username: match &self.username {
                Some(name) => Some(name.clone()),
                None => None,
            },
            download_path: self.download_path.clone(),
            connection_timeout_secs: self.connection_timeout_secs,
            dcc_timeout_secs: self.dcc_timeout_secs,
            tls: self.tls,
            port: self.port,
        }
    }
}

impl Config {
    /// The configuration after the arguments of the command line, which take precedence.
    pub open spec fn merged(
        self,
        server: Option<String>,
        channel: Option<String>,
        username: Option<String>,
        download_path: Option<String>,
    ) -> Config {
        Config {
            server: preferred(server, self.server),
            channel: preferred(channel, self.channel),
            username: if username is Some {
                username
            } else {
                self.username
            },
            download_path: preferred(download_path, self.download_path),
            ..self
        }
    }

    /// The port to connect to: the one that is set, else the usual one.
    pub open spec fn target_port(self) -> u16 {
        match self.port {
            Some(port) => port,
            None => if self.tls {
                TLS_PORT
            } else {
                PLAIN_PORT
            },
        }
    }

    /// Merge with CLI arguments (CLI takes precedence)
    pub fn merge_with_args(
        self,
        server: Option<String>,
        channel: Option<String>,
        username: Option<String>,
        download_path: Option<String>,
    ) -> (config: Self)
        ensures
            config == self.merged(server, channel, username, download_path),
    {
        let mut config = self;
        if let Some(s) = server {
            config.server = s;
        }
        if let Some(c) = channel {
            config.channel = c;
        }
        if let Some(u) = username {
            config.username = Some(u);
        }
        if let Some(d) = download_path {
            config.download_path = d;
        }
        config
    }

    /// Merge with the arguments that choose encryption and the port: `tls` switches
    /// encryption on, and a port replaces the one that is set.
    pub fn merge_with_connection_args(self, tls: bool, port: Option<u16>) -> (config: Self)
        ensures
            config == (Config {
                tls: self.tls || tls,
                port: if port is Some {
                    port
                } else {
                    self.port
                },
                ..self
            }),
    {
        let mut config = self;
        if tls {
            config.tls = true;
        }
        if port.is_some() {
            config.port = port;
        }
        config
    }

    /// The port to connect to.
    pub fn resolved_port(&self) -> (port: u16)
        ensures
            port == self.target_port(),
    {
        match self.port {
            Some(port) => port,
            None => if self.tls {
                TLS_PORT
            } else {
                PLAIN_PORT
            },
        }
    }
}

/// Arguments that are not given leave the configuration as it is.
pub proof fn law_merge_nothing(config: Config)
    ensures
        config.merged(None, None, None, None) == config,
{
}

/// Merging the same arguments twice is merging them once.
pub proof fn law_merge_twice(
    config: Config,
    server: Option<String>,
    channel: Option<String>,
    username: Option<String>,
    download_path: Option<String>,
)
    ensures
        config.merged(server, channel, username, download_path).merged(
            server,
            channel,
            username,
            download_path,
        ) == config.merged(server, channel, username, download_path),
{
}

/// An argument of the command line replaces the setting it is for, and that setting alone.
pub proof fn law_arguments_take_precedence(
    config: Config,
    server: Option<String>,
    channel: Option<String>,
    username: Option<String>,
    download_path: Option<String>,
)
    ensures
        ({
            let merged = config.merged(server, channel, username, download_path);
            &&& server matches Some(s) ==> merged.server == s
            &&& server is None ==> merged.server == config.server
            &&& channel matches Some(c) ==> merged.channel == c
            &&& channel is None ==> merged.channel == config.channel
            &&& username is Some ==> merged.username == username
            &&& username is None ==> merged.username == config.username
            &&& download_path matches Some(d) ==> merged.download_path == d
            &&& download_path is None ==> merged.download_path == config.download_path
            &&& merged.connection_timeout_secs == config.connection_timeout_secs
            &&& merged.dcc_timeout_secs == config.dcc_timeout_secs
            &&& merged.tls == config.tls
            &&& merged.port == config.port
        }),
{
}

/// The port that is set is used; else it is the usual one, which depends on whether the
/// connection is encrypted and on nothing else.
pub proof fn law_ports(config: Config)
    ensures
        config.port matches Some(port) ==> config.target_port() == port,
        config.port is None && config.tls ==> config.target_port() == 6697,
        config.port is None && !config.tls ==> config.target_port() == 6667,
{
}

/// The directory that holds the configuration, where the system has one.
pub fn config_dir(found: Option<String>) -> (dir: Result<String, AircError>)
    ensures
        match (found, dir) {
            (Some(path), Ok(d)) => d == path,
            (None, Err(AircError::Config(s))) => s@ == "Could not determine config directory"@,
            _ => false,
        },
{
    match found {
        Some(path) => Ok(path),
        None => Err(AircError::Config("Could not determine config directory".to_owned())),
    }
}

/// The error for a configuration that could not be written out, for the reason `why`.
pub fn serialize_error(why: &str) -> (e: AircError)
    ensures
        e matches AircError::Config(s) && s@ == "Failed to serialize config: "@ + why@,
{
    AircError::Config(glue2("Failed to serialize config: ", why))
}

}
