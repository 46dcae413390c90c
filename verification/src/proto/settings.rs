//! The settings of both ends of a connection.

use crate::frame::{Settings, SettingsView, DEFAULT_MAX_FRAME_SIZE};
use vstd::prelude::*;

verus! {

/// The parameters that one end has set.
#[derive(Clone, Copy, Debug, PartialEq, Eq, Structural)]
pub struct SettingValues {
    /// Size of the header compression table.
    pub header_table_size: u32,
    /// Whether the server may push.
    pub enable_push: bool,
    /// How many streams may be open at once.
    pub max_concurrent_streams: u32,
    /// The window that streams start with.
    pub initial_window_size: u32,
    /// The largest frame payload.
    pub max_frame_size: u32,
    /// The largest header list; the largest number stands for no limit.
    pub max_header_list_size: u32,
}

impl SettingValues {
    /// What holds before anything was agreed.
    pub open spec fn initial() -> SettingValues {
        SettingValues {
            header_table_size: 4096,
            enable_push: true,
            max_concurrent_streams: u32::MAX,
            initial_window_size: 65_535,
            max_frame_size: DEFAULT_MAX_FRAME_SIZE,
            max_header_list_size: u32::MAX,
        }
    }

    /// The values after a SETTINGS frame: what the frame says replaces what was.
    pub open spec fn updated(self, s: SettingsView) -> SettingValues {
        SettingValues {
            header_table_size: s.header_table_size.unwrap_or(self.header_table_size),
            enable_push: s.enable_push.unwrap_or(self.enable_push),
            max_concurrent_streams: s.max_concurrent_streams.unwrap_or(
                self.max_concurrent_streams,
            ),
            initial_window_size: s.initial_window_size.unwrap_or(self.initial_window_size),
            max_frame_size: s.max_frame_size.unwrap_or(self.max_frame_size),
            max_header_list_size: s.max_header_list_size.unwrap_or(self.max_header_list_size),
        }
    }

    /// The SETTINGS frame that announces these values: the window that streams start
    /// with, and every other parameter that is not what holds anyway.
    pub open spec fn announced(self) -> SettingsView {
        let d = SettingValues::initial();
        SettingsView {
            ack: false,
            header_table_size: if self.header_table_size == d.header_table_size {
                None
            } else {
                Some(self.header_table_size)
            },
            enable_push: if self.enable_push {
                None
            } else {
                Some(false)
            },
            max_concurrent_streams: if self.max_concurrent_streams == d.max_concurrent_streams {
                None
            } else {
                Some(self.max_concurrent_streams)
            },
            initial_window_size: Some(self.initial_window_size),
            max_frame_size: if self.max_frame_size == d.max_frame_size {
                None
            } else {
                Some(self.max_frame_size)
            },
            max_header_list_size: if self.max_header_list_size == d.max_header_list_size {
                None
            } else {
                Some(self.max_header_list_size)
            },
        }
    }

    /// What holds before anything was agreed.
    pub fn new() -> (v: SettingValues)
        ensures
            v == SettingValues::initial(),
    {
        SettingValues {
            header_table_size: 4096,
            enable_push: true,
            max_concurrent_streams: u32::MAX,
            initial_window_size: 65_535,
            max_frame_size: DEFAULT_MAX_FRAME_SIZE,
            max_header_list_size: u32::MAX,
        }
    }

    fn announce(&self) -> (s: Settings)
        ensures
            s@ == self.announced(),
    {
        let d: SettingValues = SettingValues::new();
        let mut v: SettingsView = Settings::new().values();
        if self.header_table_size != d.header_table_size {
            v.header_table_size = Some(self.header_table_size);
        }
        if !self.enable_push {
            v.enable_push = Some(false);
        }
        if self.max_concurrent_streams != d.max_concurrent_streams {
            v.max_concurrent_streams = Some(self.max_concurrent_streams);
        }
        v.initial_window_size = Some(self.initial_window_size);
        if self.max_frame_size != d.max_frame_size {
            v.max_frame_size = Some(self.max_frame_size);
        }
        if self.max_header_list_size != d.max_header_list_size {
            v.max_header_list_size = Some(self.max_header_list_size);
        }
        Settings::announcing(v)
    }
}

/// Whether the peer has acknowledged the settings that were sent.
#[derive(Clone, Copy, Debug, PartialEq, Eq, Structural)]
pub enum SyncState {
    /// Nothing is outstanding.
    Synced,
    /// A SETTINGS frame waits for its acknowledgement. `queued` says whether another
    /// one is to be sent then.
    WaitingAck {
        /// Whether there are changes that were not sent yet.
        queued: bool,
    },
}

/// The settings of a connection.
#[derive(Clone, Copy, Debug, PartialEq, Eq, Structural)]
pub struct ConnSettings {
    /// What this end has set.
    pub local: SettingValues,
    /// What the peer has set.
    pub remote: SettingValues,
    /// Whether the peer has acknowledged what this end has set.
    pub sync: SyncState,
}

impl ConnSettings {
    /// Whether the peer lets frames have a payload.
    pub open spec fn valid(self) -> bool {
        self.remote.max_frame_size > 0
    }

    /// The settings of a connection on which nothing was agreed.
    pub open spec fn initial() -> ConnSettings {
        ConnSettings {
            local: SettingValues::initial(),
            remote: SettingValues::initial(),
            sync: SyncState::Synced,
        }
    }

    /// The peer's acknowledgement: a queued change is sent now.
    pub open spec fn acked(self) -> (ConnSettings, Option<SettingsView>) {
        match self.sync {
            SyncState::WaitingAck { queued: true } => (
                ConnSettings { sync: SyncState::WaitingAck { queued: false }, ..self },
                Some(self.local.announced()),
            ),
            _ => (ConnSettings { sync: SyncState::Synced, ..self }, None),
        }
    }

    /// The local settings are to be sent: now, or when the outstanding frame was
    /// acknowledged.
    pub open spec fn sent(self) -> (ConnSettings, Option<SettingsView>) {
        match self.sync {
            SyncState::Synced => (
                ConnSettings { sync: SyncState::WaitingAck { queued: false }, ..self },
                Some(self.local.announced()),
            ),
            SyncState::WaitingAck { .. } => (
                ConnSettings { sync: SyncState::WaitingAck { queued: true }, ..self },
                None,
            ),
        }
    }

    /// The settings of a connection on which nothing was agreed.
    pub fn new() -> (s: ConnSettings)
        ensures
            s == ConnSettings::initial(),
            s.valid(),
    {
        ConnSettings {
            local: SettingValues::new(),
            remote: SettingValues::new(),
            sync: SyncState::Synced,
        }
    }

    /// Whether the peer lets frames have a payload.
    pub fn is_valid(&self) -> (r: bool)
        ensures
            r == self.valid(),
    {
        self.remote.max_frame_size > 0
    }

    /// What this end has set.
    pub fn local(&self) -> (v: &SettingValues)
        ensures
            *v == self.local,
    {
        &self.local
    }

    /// What the peer has set.
    pub fn remote(&self) -> (v: &SettingValues)
        ensures
            *v == self.remote,
    {
        &self.remote
    }

    /// Changes the window that streams start with on this end.
    pub fn set_local_initial_window_size(&mut self, size: u32)
        ensures
            *final(self) == (ConnSettings {
                local: SettingValues { initial_window_size: size, ..old(self).local },
                ..*old(self)
            }),
    {
        self.local.initial_window_size = size;
    }

    /// Takes over what the peer's SETTINGS frame says.
    pub fn apply_remote(&mut self, settings: &Settings)
        ensures
            *final(self) == (ConnSettings {
                remote: old(self).remote.updated(settings@),
                ..*old(self)
            }),
            old(self).valid() && settings@.allows_payload() ==> final(self).valid(),
    {
        let s: SettingsView = settings.values();
        self.remote = SettingValues {
            header_table_size: s.header_table_size.unwrap_or(self.remote.header_table_size),
            enable_push: s.enable_push.unwrap_or(self.remote.enable_push),
            max_concurrent_streams: s.max_concurrent_streams.unwrap_or(
                self.remote.max_concurrent_streams,
            ),
            initial_window_size: s.initial_window_size.unwrap_or(self.remote.initial_window_size),
            max_frame_size: s.max_frame_size.unwrap_or(self.remote.max_frame_size),
            max_header_list_size: s.max_header_list_size.unwrap_or(
                self.remote.max_header_list_size,
            ),
        };
    }

    /// The peer acknowledged the outstanding SETTINGS frame. The frame to be sent
    /// next, if a change was queued.
    pub fn recv_ack(&mut self) -> (r: Option<Settings>)
        ensures
            (*final(self), frame_view(r)) == old(self).acked(),
    {
        match self.sync {
            SyncState::WaitingAck { queued: true } => {
                self.sync = SyncState::WaitingAck { queued: false };
                Some(self.local.announce())
            },
            _ => {
                self.sync = SyncState::Synced;
                None
            },
        }
    }

    /// The SETTINGS frame that announces the local settings, or `None` where another
    /// one is outstanding: it is then sent when that was acknowledged.
    pub fn build_local_settings(&mut self) -> (r: Option<Settings>)
        ensures
            (*final(self), frame_view(r)) == old(self).sent(),
    {
        match self.sync {
            SyncState::Synced => {
                self.sync = SyncState::WaitingAck { queued: false };
                Some(self.local.announce())
            },
            SyncState::WaitingAck { .. } => {
                self.sync = SyncState::WaitingAck { queued: true };
                None
            },
        }
    }

    /// The SETTINGS frame that opens the connection.
    pub fn build_initial_settings(&mut self) -> (r: Settings)
        ensures
            r@ == old(self).local.announced(),
            *final(self) == (ConnSettings {
                sync: SyncState::WaitingAck { queued: false },
                ..*old(self)
            }),
    {
        self.sync = SyncState::WaitingAck { queued: false };
        self.local.announce()
    }
}

/// The parameters of the frame, if there is one.
pub open spec fn frame_view(s: Option<Settings>) -> Option<SettingsView> {
    match s {
        Some(s) => Some(s@),
        None => None,
    }
}

/// A change that is made while a SETTINGS frame is outstanding is not lost: nothing
/// is sent until the acknowledgement, and then the values of that time are.
pub proof fn lemma_queued_settings_are_sent(s: ConnSettings)
    requires
        s.sync is WaitingAck,
    ensures
        s.sent().1 is None,
        s.sent().0.local == s.local,
        s.sent().0.acked().1 == Some(s.local.announced()),
{
}

/// The SETTINGS frame that opens the connection tells the peer every parameter.
pub proof fn lemma_announced_settings_arrive(v: SettingValues)
    ensures
        SettingValues::initial().updated(v.announced()) == v,
{
}

/// At most one SETTINGS frame is outstanding: none is sent before the last one was
/// acknowledged.
pub proof fn lemma_one_settings_frame_outstanding(s: ConnSettings)
    ensures
        s.sent().1 is Some ==> s.sync is Synced,
        s.sent().0.sync is WaitingAck,
        s.acked().1 is Some ==> s.sync is WaitingAck && s.acked().0.sync is WaitingAck,
{
}

/// What both ends go by until they are told otherwise.
pub proof fn lemma_settings_at_first()
    ensures
        ({
            let s = ConnSettings::initial();
            &&& s.local == s.remote
            &&& s.local.header_table_size == 4096
            &&& s.local.enable_push
            &&& s.local.max_concurrent_streams == u32::MAX
            &&& s.local.initial_window_size == 65_535
            &&& s.local.max_frame_size == 16_384
            &&& s.local.max_header_list_size == u32::MAX
            &&& s.sync == SyncState::Synced
        }),
{
}

} // verus!
