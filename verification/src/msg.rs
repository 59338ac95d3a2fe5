//! Message numbers of the transport and channel protocols, the signal and
//! failure-reason vocabularies, and the tagged unions carried between user
//! tasks and the session.
use vstd::prelude::*;

verus! {

use russh_cryptovec::CryptoVec;
use crate::ChannelId;

// Transport-layer opcodes. Every opcode at most 4 is routed to the key
// exchange sub-state by the session loop; DISCONNECT ends the session.
pub const DISCONNECT: u8 = 1;
pub const KEXINIT: u8 = 2;
pub const NEWKEYS: u8 = 3;

// Channel-protocol opcodes.
pub const CHANNEL_OPEN: u8 = 20;
pub const CHANNEL_OPEN_CONFIRMATION: u8 = 21;
pub const CHANNEL_OPEN_FAILURE: u8 = 22;
pub const CHANNEL_WINDOW_ADJUST: u8 = 23;
pub const CHANNEL_DATA: u8 = 24;
pub const CHANNEL_EXTENDED_DATA: u8 = 25;
pub const CHANNEL_EOF: u8 = 26;
pub const CHANNEL_CLOSE: u8 = 27;
pub const CHANNEL_REQUEST: u8 = 28;
pub const CHANNEL_SUCCESS: u8 = 29;
pub const CHANNEL_FAILURE: u8 = 30;

// Global-request opcodes.
pub const GLOBAL_REQUEST: u8 = 80;
pub const REQUEST_SUCCESS: u8 = 81;
pub const REQUEST_FAILURE: u8 = 82;

/// A POSIX signal name, as carried by `"signal"` and `"exit-signal"` requests.
#[derive(Clone, Debug, PartialEq, Eq)]
pub enum Sig {
    Abrt,
    Alrm,
    Fpe,
    Hup,
    Ill,
    Int,
    Kill,
    Pipe,
    Quit,
    Segv,
    Term,
    Usr1,
    Custom(String),
}

impl Sig {
    /// The signal's wire name, without the "SIG" prefix.
    pub open spec fn spec_name(self) -> Seq<char> {
        match self {
            Sig::Abrt => "ABRT"@,
            Sig::Alrm => "ALRM"@,
            Sig::Fpe => "FPE"@,
            Sig::Hup => "HUP"@,
            Sig::Ill => "ILL"@,
            Sig::Int => "INT"@,
            Sig::Kill => "KILL"@,
            Sig::Pipe => "PIPE"@,
            Sig::Quit => "QUIT"@,
            Sig::Segv => "SEGV"@,
            Sig::Term => "TERM"@,
            Sig::Usr1 => "USR1"@,
            Sig::Custom(s) => s@,
        }
    }

    pub fn name(&self) -> (r: &str)
        ensures
            r@ == self.spec_name(),
    {
        match self {
            Sig::Abrt => "ABRT",
            Sig::Alrm => "ALRM",
            Sig::Fpe => "FPE",
            Sig::Hup => "HUP",
            Sig::Ill => "ILL",
            Sig::Int => "INT",
            Sig::Kill => "KILL",
            Sig::Pipe => "PIPE",
            Sig::Quit => "QUIT",
            Sig::Segv => "SEGV",
            Sig::Term => "TERM",
            Sig::Usr1 => "USR1",
            Sig::Custom(s) => s.as_str(),
        }
    }
}

/// Reason code carried by a CHANNEL_OPEN_FAILURE packet.
#[derive(Clone, Copy, Debug, PartialEq, Eq, Structural)]
pub enum ChannelOpenFailure {
    AdministrativelyProhibited,
    ConnectFailed,
    UnknownChannelType,
    ResourceShortage,
}

impl ChannelOpenFailure {
    /// The wire code of this reason.
    pub open spec fn spec_code(self) -> u32 {
        match self {
            ChannelOpenFailure::AdministrativelyProhibited => 1u32,
            ChannelOpenFailure::ConnectFailed => 2u32,
            ChannelOpenFailure::UnknownChannelType => 3u32,
            ChannelOpenFailure::ResourceShortage => 4u32,
        }
    }

    pub fn code(&self) -> (r: u32)
        ensures
            r == self.spec_code(),
    {
        match self {
            ChannelOpenFailure::AdministrativelyProhibited => 1,
            ChannelOpenFailure::ConnectFailed => 2,
            ChannelOpenFailure::UnknownChannelType => 3,
            ChannelOpenFailure::ResourceShortage => 4,
        }
    }

    /// The reason a wire code stands for, if it is a known one.
    pub fn from_code(code: u32) -> (r: Option<ChannelOpenFailure>)
        ensures
            match r {
                Some(f) => f.spec_code() == code,
                None => code == 0 || code > 4,
            },
    {
        match code {
            1 => Some(ChannelOpenFailure::AdministrativelyProhibited),
            2 => Some(ChannelOpenFailure::ConnectFailed),
            3 => Some(ChannelOpenFailure::UnknownChannelType),
            4 => Some(ChannelOpenFailure::ResourceShortage),
            _ => None,
        }
    }
}

/// Messages exchanged between a channel handle and the session, and events
/// delivered to a channel's inbound queue. SSH has two asymmetric request
/// vocabularies (client-initiated channel requests and server-initiated
/// status reports); both travel on the same wire, so they stay in one tagged
/// union.
#[derive(Debug)]
pub enum ChannelMsg {
    Open { id: ChannelId, max_packet_size: u32, window_size: u32 },
    Data { data: CryptoVec },
    ExtendedData { data: CryptoVec, ext: u32 },
    Eof,
    /// (client only) Terminal modes are opcode bytes paired with an argument.
    RequestPty {
        want_reply: bool,
        term: String,
        col_width: u32,
        row_height: u32,
        pix_width: u32,
        pix_height: u32,
        terminal_modes: Vec<(u8, u32)>,
    },
    /// (client only)
    RequestShell { want_reply: bool },
    /// (client only)
    Exec { want_reply: bool, command: Vec<u8> },
    /// (client only)
    Signal { signal: Sig },
    /// (client only)
    RequestSubsystem { want_reply: bool, name: String },
    /// (client only)
    RequestX11 {
        want_reply: bool,
        single_connection: bool,
        x11_authentication_protocol: String,
        x11_authentication_cookie: String,
        x11_screen_number: u32,
    },
    /// (client only)
    SetEnv { want_reply: bool, variable_name: String, variable_value: String },
    /// (client only)
    WindowChange { col_width: u32, row_height: u32, pix_width: u32, pix_height: u32 },
    /// (client only)
    AgentForward { want_reply: bool },
    /// (server only)
    XonXoff { client_can_do: bool },
    /// (server only)
    ExitStatus { exit_status: u32 },
    /// (server only)
    ExitSignal { signal_name: Sig, core_dumped: bool, error_message: String, lang_tag: String },
    /// (server only)
    WindowAdjusted { new_size: u32 },
    /// (server only)
    Success,
    /// (server only)
    Failure,
    /// (server only)
    Close,
    OpenFailure(ChannelOpenFailure),
}

/// A message posted to the session's application mailbox. The tokio sender
/// that accompanies a channel-open request lives outside the verified core;
/// the session answers an open request with a fresh channel id that the
/// caller registers under it.
#[derive(Debug)]
pub enum Msg {
    ChannelOpenSession,
    ChannelOpenDirectTcpIp {
        host_to_connect: String,
        port_to_connect: u32,
        originator_address: String,
        originator_port: u32,
    },
    ChannelOpenForwardedTcpIp {
        connected_address: String,
        connected_port: u32,
        originator_address: String,
        originator_port: u32,
    },
    Channel(ChannelId, ChannelMsg),
}

impl From<(ChannelId, ChannelMsg)> for Msg {
    fn from(pair: (ChannelId, ChannelMsg)) -> (r: Msg) {
        Msg::Channel(pair.0, pair.1)
    }
}

impl vstd::std_specs::convert::FromSpecImpl<(ChannelId, ChannelMsg)> for Msg {
    open spec fn obeys_from_spec() -> bool {
        true
    }

    open spec fn from_spec(pair: (ChannelId, ChannelMsg)) -> Msg {
        Msg::Channel(pair.0, pair.1)
    }
}

} // verus!
