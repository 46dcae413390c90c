//! Configuration of a connection before it is started.

use crate::proto::connection::{ConnConfig, ConnExtra};
use crate::proto::ping_pong::PingPong;
use crate::proto::settings::{ConnSettings, SettingValues};
use vstd::prelude::*;

verus! {

/// Whether a configuration is the one that holds if nothing is set.
pub open spec fn is_default(c: ConnConfig) -> bool {
    &&& c.settings == ConnSettings::initial()
    &&& c.ping_pong@ is None
    &&& c.initial_connection_window_size is None
    &&& c.extra == (ConnExtra {
        max_concurrent_reset_streams: None,
        reset_stream_duration: None,
        max_send_buffer_size: None,
    })
}

/// The configuration that holds if nothing is set.
pub fn default_config() -> (c: ConnConfig)
    ensures
        is_default(c),
        c.settings.valid(),
{
    ConnConfig {
        settings: ConnSettings::new(),
        ping_pong: PingPong::disabled(),
        initial_connection_window_size: None,
        extra: ConnExtra::default(),
    }
}

/// The configuration with other local settings.
pub open spec fn with_local(c: ConnConfig, local: SettingValues) -> ConnConfig {
    ConnConfig { settings: ConnSettings { local, ..c.settings }, ..c }
}

/// Configures a client connection.
#[derive(Clone, Copy, Debug)]
pub struct ClientBuilder {
    /// What was set so far.
    pub config: ConnConfig,
}

impl ClientBuilder {
    /// Nothing is set.
    pub fn new() -> (b: ClientBuilder)
        ensures
            is_default(b.config),
            b.config.settings.valid(),
    {
        ClientBuilder { config: default_config() }
    }

    /// The window that streams start with.
    pub fn initial_window_size(self, size: u32) -> (b: ClientBuilder)
        ensures
            b.config == with_local(
                self.config,
                SettingValues { initial_window_size: size, ..self.config.settings.local },
            ),
            self.config.settings.valid() ==> b.config.settings.valid(),
    {
        let mut b: ClientBuilder = self;
        b.config.settings.local.initial_window_size = size;
        b
    }

    /// The largest frame payload that is accepted.
    pub fn max_frame_size(self, size: u32) -> (b: ClientBuilder)
        ensures
            b.config == with_local(
                self.config,
                SettingValues { max_frame_size: size, ..self.config.settings.local },
            ),
            self.config.settings.valid() ==> b.config.settings.valid(),
    {
        let mut b: ClientBuilder = self;
        b.config.settings.local.max_frame_size = size;
        b
    }

    /// The largest header list that is accepted.
    pub fn max_header_list_size(self, size: u32) -> (b: ClientBuilder)
        ensures
            b.config == with_local(
                self.config,
                SettingValues { max_header_list_size: size, ..self.config.settings.local },
            ),
            self.config.settings.valid() ==> b.config.settings.valid(),
    {
        let mut b: ClientBuilder = self;
        b.config.settings.local.max_header_list_size = size;
        b
    }

    /// The connection's receive window.
    pub fn initial_connection_window_size(self, size: u32) -> (b: ClientBuilder)
        ensures
            b.config == (ConnConfig { initial_connection_window_size: Some(size), ..self.config }),
    {
        let mut b: ClientBuilder = self;
        b.config.initial_connection_window_size = Some(size);
        b
    }

    /// The local limits.
    pub fn extra(self, extra: ConnExtra) -> (b: ClientBuilder)
        ensures
            b.config == (ConnConfig { extra, ..self.config }),
    {
        let mut b: ClientBuilder = self;
        b.config.extra = extra;
        b
    }
}

/// Configures a server connection.
#[derive(Clone, Copy, Debug)]
pub struct ServerBuilder {
    /// What was set so far.
    pub config: ConnConfig,
}

impl ServerBuilder {
    /// Nothing is set.
    pub fn new() -> (b: ServerBuilder)
        ensures
            is_default(b.config),
            b.config.settings.valid(),
    {
        ServerBuilder { config: default_config() }
    }

    /// How many streams the client may have open at once.
    pub fn max_concurrent_streams(self, max: u32) -> (b: ServerBuilder)
        ensures
            b.config == with_local(
                self.config,
                SettingValues { max_concurrent_streams: max, ..self.config.settings.local },
            ),
            self.config.settings.valid() ==> b.config.settings.valid(),
    {
        let mut b: ServerBuilder = self;
        b.config.settings.local.max_concurrent_streams = max;
        b
    }

    /// The window that streams start with.
    pub fn initial_window_size(self, size: u32) -> (b: ServerBuilder)
        ensures
            b.config == with_local(
                self.config,
                SettingValues { initial_window_size: size, ..self.config.settings.local },
            ),
            self.config.settings.valid() ==> b.config.settings.valid(),
    {
        let mut b: ServerBuilder = self;
        b.config.settings.local.initial_window_size = size;
        b
    }

    /// The largest frame payload that is accepted.
    pub fn max_frame_size(self, size: u32) -> (b: ServerBuilder)
        ensures
            b.config == with_local(
                self.config,
                SettingValues { max_frame_size: size, ..self.config.settings.local },
            ),
            self.config.settings.valid() ==> b.config.settings.valid(),
    {
        let mut b: ServerBuilder = self;
        b.config.settings.local.max_frame_size = size;
        b
    }

    /// The largest header list that is accepted.
    pub fn max_header_list_size(self, size: u32) -> (b: ServerBuilder)
        ensures
            b.config == with_local(
                self.config,
                SettingValues { max_header_list_size: size, ..self.config.settings.local },
            ),
            self.config.settings.valid() ==> b.config.settings.valid(),
    {
        let mut b: ServerBuilder = self;
        b.config.settings.local.max_header_list_size = size;
        b
    }

    /// The connection's receive window.
    pub fn initial_connection_window_size(self, size: u32) -> (b: ServerBuilder)
        ensures
            b.config == (ConnConfig { initial_connection_window_size: Some(size), ..self.config }),
    {
        let mut b: ServerBuilder = self;
        b.config.initial_connection_window_size = Some(size);
        b
    }

    /// The local limits.
    pub fn extra(self, extra: ConnExtra) -> (b: ServerBuilder)
        ensures
            b.config == (ConnConfig { extra, ..self.config }),
    {
        let mut b: ServerBuilder = self;
        b.config.extra = extra;
        b
    }
}

/// A configuration that nothing was changed of has the settings that both ends go by at first, no
/// keepalive and no limits of its own; changing this end's settings changes nothing else.
pub proof fn lemma_configuration_changes_one_thing(c: ConnConfig, local: SettingValues)
    ensures
        is_default(c) ==> c.settings == ConnSettings::initial() && c.ping_pong@ is None
            && c.initial_connection_window_size is None && c.extra.max_concurrent_reset_streams
            is None && c.extra.reset_stream_duration is None && c.extra.max_send_buffer_size is None,
        with_local(c, local).settings.local == local,
        with_local(c, local).settings.remote == c.settings.remote,
        with_local(c, local).settings.sync == c.settings.sync,
        with_local(c, local).ping_pong == c.ping_pong,
        with_local(c, local).initial_connection_window_size == c.initial_connection_window_size,
        with_local(c, local).extra == c.extra,
{
}

} // verus!
