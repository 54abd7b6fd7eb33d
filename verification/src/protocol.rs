//! The ADS protocol: commands, device states and the AMS header.
use crate::le::{push_u16_le, push_u32_le, read_u16_le, read_u32_le, u16_bytes, u16_le, u32_bytes, u32_le};
use crate::netid::AmsNetId;
use crate::strs::{chars_of, string_from_chars};
use vstd::prelude::*;

verus! {

/// Size of the AMS/TCP header.
pub const AMS_TCP_HEADER_SIZE: usize = 6;

/// Size of the AMS header.
pub const AMS_HEADER_SIZE: usize = 32;

/// Size of both headers together.
pub const ADS_HEADER_SIZE: usize = 38;

/// The default port for TCP communication.
pub const PORT: u16 = 0xBF02;

/// The default port for UDP communication.
pub const UDP_PORT: u16 = 0xBF03;

/// An ADS protocol command.
#[derive(Clone, Copy, Debug, PartialEq, Eq)]
pub enum Command {
    /// Return device info
    DevInfo,
    /// Read some data
    Read,
    /// Write some data
    Write,
    /// Write some data, then read back some data (used as a poor man's
    /// function call)
    ReadWrite,
    /// Read the ADS and device state
    ReadState,
    /// Set the ADS and device state
    WriteControl,
    /// Add a notification for a given index
    AddNotification,
    /// Delete a notification
    DeleteNotification,
    /// Change occurred in a given notification, sent by the PLC only
    Notification,
}

/// The command's number on the wire.
pub open spec fn command_code(c: Command) -> u16 {
    match c {
        Command::DevInfo => 1,
        Command::Read => 2,
        Command::Write => 3,
        Command::ReadWrite => 9,
        Command::ReadState => 4,
        Command::WriteControl => 5,
        Command::AddNotification => 6,
        Command::DeleteNotification => 7,
        Command::Notification => 8,
    }
}

/// A short description of what the command does, used in error messages.
pub open spec fn command_action(c: Command) -> &'static str {
    match c {
        Command::DevInfo => "get device info",
        Command::Read => "read data",
        Command::Write => "write data",
        Command::ReadWrite => "write and read data",
        Command::ReadState => "read state",
        Command::WriteControl => "write control",
        Command::AddNotification => "add notification",
        Command::DeleteNotification => "delete notification",
        Command::Notification => "notification",
    }
}

impl Command {
    /// The command's number on the wire.
    pub fn code(self) -> (r: u16)
        ensures
            r == command_code(self),
    {
        match self {
            Command::DevInfo => 1,
            Command::Read => 2,
            Command::Write => 3,
            Command::ReadWrite => 9,
            Command::ReadState => 4,
            Command::WriteControl => 5,
            Command::AddNotification => 6,
            Command::DeleteNotification => 7,
            Command::Notification => 8,
        }
    }

    /// A short description of what the command does.
    pub fn action(self) -> (r: &'static str)
        ensures
            r == command_action(self),
    {
        match self {
            Command::DevInfo => "get device info",
            Command::Read => "read data",
            Command::Write => "write data",
            Command::ReadWrite => "write and read data",
            Command::ReadState => "read state",
            Command::WriteControl => "write control",
            Command::AddNotification => "add notification",
            Command::DeleteNotification => "delete notification",
            Command::Notification => "notification",
        }
    }
}

/// Device info returned from an ADS server.
#[derive(Debug, Clone, PartialEq, Eq)]
pub struct DeviceInfo {
    /// Name of the ADS device/service.
    pub name: String,
    /// Major version.
    pub major: u8,
    /// Minor version.
    pub minor: u8,
    /// Build version.
    pub version: u16,
}

/// The ADS state of a device.
#[derive(Debug, Clone, Copy, PartialEq, Eq)]
pub enum AdsState {
    Invalid,
    Idle,
    Reset,
    Init,
    Start,
    Run,
    Stop,
    SaveCfg,
    LoadCfg,
    PowerFail,
    PowerGood,
    Error,
    Shutdown,
    Suspend,
    Resume,
    Config,
    Reconfig,
    Stopping,
    Incompatible,
    Exception,
}

/// The state with wire number `v`, for `v` from 0 to 19.
pub open spec fn state_of_code(v: u16) -> Option<AdsState> {
    if v == 0 {
        Some(AdsState::Invalid)
    } else if v == 1 {
        Some(AdsState::Idle)
    } else if v == 2 {
        Some(AdsState::Reset)
    } else if v == 3 {
        Some(AdsState::Init)
    } else if v == 4 {
        Some(AdsState::Start)
    } else if v == 5 {
        Some(AdsState::Run)
    } else if v == 6 {
        Some(AdsState::Stop)
    } else if v == 7 {
        Some(AdsState::SaveCfg)
    } else if v == 8 {
        Some(AdsState::LoadCfg)
    } else if v == 9 {
        Some(AdsState::PowerFail)
    } else if v == 10 {
        Some(AdsState::PowerGood)
    } else if v == 11 {
        Some(AdsState::Error)
    } else if v == 12 {
        Some(AdsState::Shutdown)
    } else if v == 13 {
        Some(AdsState::Suspend)
    } else if v == 14 {
        Some(AdsState::Resume)
    } else if v == 15 {
        Some(AdsState::Config)
    } else if v == 16 {
        Some(AdsState::Reconfig)
    } else if v == 17 {
        Some(AdsState::Stopping)
    } else if v == 18 {
        Some(AdsState::Incompatible)
    } else if v == 19 {
        Some(AdsState::Exception)
    } else {
        None
    }
}

/// The wire number of a state.
pub open spec fn state_code(s: AdsState) -> u16 {
    match s {
        AdsState::Invalid => 0,
        AdsState::Idle => 1,
        AdsState::Reset => 2,
        AdsState::Init => 3,
        AdsState::Start => 4,
        AdsState::Run => 5,
        AdsState::Stop => 6,
        AdsState::SaveCfg => 7,
        AdsState::LoadCfg => 8,
        AdsState::PowerFail => 9,
        AdsState::PowerGood => 10,
        AdsState::Error => 11,
        AdsState::Shutdown => 12,
        AdsState::Suspend => 13,
        AdsState::Resume => 14,
        AdsState::Config => 15,
        AdsState::Reconfig => 16,
        AdsState::Stopping => 17,
        AdsState::Incompatible => 18,
        AdsState::Exception => 19,
    }
}

/// The name of each state, in lower case, as `from_str` accepts it.
pub open spec fn state_name(s: AdsState) -> Seq<char> {
    match s {
        AdsState::Invalid => "invalid"@,
        AdsState::Idle => "idle"@,
        AdsState::Reset => "reset"@,
        AdsState::Init => "init"@,
        AdsState::Start => "start"@,
        AdsState::Run => "run"@,
        AdsState::Stop => "stop"@,
        AdsState::SaveCfg => "savecfg"@,
        AdsState::LoadCfg => "loadcfg"@,
        AdsState::PowerFail => "powerfail"@,
        AdsState::PowerGood => "powergood"@,
        AdsState::Error => "error"@,
        AdsState::Shutdown => "shutdown"@,
        AdsState::Suspend => "suspend"@,
        AdsState::Resume => "resume"@,
        AdsState::Config => "config"@,
        AdsState::Reconfig => "reconfig"@,
        AdsState::Stopping => "stopping"@,
        AdsState::Incompatible => "incompatible"@,
        AdsState::Exception => "exception"@,
    }
}

/// ASCII lower-casing of one character (other characters are kept).
pub open spec fn ascii_lower(c: char) -> char {
    if 'A' <= c <= 'Z' {
        ((c as int) + 32) as char
    } else {
        c
    }
}

/// ASCII lower-casing of a text (`str::to_ascii_lowercase`).
pub open spec fn ascii_lowercase(s: Seq<char>) -> Seq<char> {
    s.map_values(|c: char| ascii_lower(c))
}

/// The state whose name is the text, letter case aside.
pub open spec fn state_of_name(s: Seq<char>) -> Option<AdsState> {
    let l = ascii_lowercase(s);
    if l == "invalid"@ {
        Some(AdsState::Invalid)
    } else if l == "idle"@ {
        Some(AdsState::Idle)
    } else if l == "reset"@ {
        Some(AdsState::Reset)
    } else if l == "init"@ {
        Some(AdsState::Init)
    } else if l == "start"@ {
        Some(AdsState::Start)
    } else if l == "run"@ {
        Some(AdsState::Run)
    } else if l == "stop"@ {
        Some(AdsState::Stop)
    } else if l == "savecfg"@ {
        Some(AdsState::SaveCfg)
    } else if l == "loadcfg"@ {
        Some(AdsState::LoadCfg)
    } else if l == "powerfail"@ {
        Some(AdsState::PowerFail)
    } else if l == "powergood"@ {
        Some(AdsState::PowerGood)
    } else if l == "error"@ {
        Some(AdsState::Error)
    } else if l == "shutdown"@ {
        Some(AdsState::Shutdown)
    } else if l == "suspend"@ {
        Some(AdsState::Suspend)
    } else if l == "resume"@ {
        Some(AdsState::Resume)
    } else if l == "config"@ {
        Some(AdsState::Config)
    } else if l == "reconfig"@ {
        Some(AdsState::Reconfig)
    } else if l == "stopping"@ {
        Some(AdsState::Stopping)
    } else if l == "incompatible"@ {
        Some(AdsState::Incompatible)
    } else if l == "exception"@ {
        Some(AdsState::Exception)
    } else {
        None
    }
}

/// Lower-cases the ASCII letters of a text (`str::to_ascii_lowercase`).
pub fn to_ascii_lowercase(s: &str) -> (r: String)
    ensures
        r@ == ascii_lowercase(s@),
{
    let cs = chars_of(s);
    let mut out: Vec<char> = Vec::new();
    let mut i: usize = 0;
    while i < cs.len()
        invariant
            cs@ == s@,
            i <= cs@.len(),
            out@ =~= ascii_lowercase(cs@.take(i as int)),
        decreases cs@.len() - i,
    {
        let c = cs[i];
        let l = if 'A' <= c && c <= 'Z' {
            ((c as u32) + 32) as u8 as char
        } else {
            c
        };
        out.push(l);
        i = i + 1;
    }
    assert(cs@.take(cs@.len() as int) =~= cs@);
    string_from_chars(out.as_slice())
}

impl AdsState {
    /// The state's number on the wire.
    pub fn code(self) -> (r: u16)
        ensures
            r == state_code(self),
    {
        match self {
            AdsState::Invalid => 0,
            AdsState::Idle => 1,
            AdsState::Reset => 2,
            AdsState::Init => 3,
            AdsState::Start => 4,
            AdsState::Run => 5,
            AdsState::Stop => 6,
            AdsState::SaveCfg => 7,
            AdsState::LoadCfg => 8,
            AdsState::PowerFail => 9,
            AdsState::PowerGood => 10,
            AdsState::Error => 11,
            AdsState::Shutdown => 12,
            AdsState::Suspend => 13,
            AdsState::Resume => 14,
            AdsState::Config => 15,
            AdsState::Reconfig => 16,
            AdsState::Stopping => 17,
            AdsState::Incompatible => 18,
            AdsState::Exception => 19,
        }
    }

    /// The state with a wire number; numbers past 19 are not states.
    pub fn try_from_code(value: u16) -> (r: Result<AdsState, &'static str>)
        ensures
            match r {
                Ok(s) => state_of_code(value) == Some(s),
                Err(m) => state_of_code(value) is None && m == "invalid state constant",
            },
    {
        match value {
            0 => Ok(AdsState::Invalid),
            1 => Ok(AdsState::Idle),
            2 => Ok(AdsState::Reset),
            3 => Ok(AdsState::Init),
            4 => Ok(AdsState::Start),
            5 => Ok(AdsState::Run),
            6 => Ok(AdsState::Stop),
            7 => Ok(AdsState::SaveCfg),
            8 => Ok(AdsState::LoadCfg),
            9 => Ok(AdsState::PowerFail),
            10 => Ok(AdsState::PowerGood),
            11 => Ok(AdsState::Error),
            12 => Ok(AdsState::Shutdown),
            13 => Ok(AdsState::Suspend),
            14 => Ok(AdsState::Resume),
            15 => Ok(AdsState::Config),
            16 => Ok(AdsState::Reconfig),
            17 => Ok(AdsState::Stopping),
            18 => Ok(AdsState::Incompatible),
            19 => Ok(AdsState::Exception),
            _ => Err("invalid state constant"),
        }
    }

    /// The state with a name, letter case aside.
    pub fn parse(s: &str) -> (r: Result<AdsState, &'static str>)
        ensures
            match r {
                Ok(st) => state_of_name(s@) == Some(st),
                Err(m) => state_of_name(s@) is None && m == "invalid state name",
            },
    {
        let lower = to_ascii_lowercase(s);
        let l = lower.as_str();
        if crate::strs::str_eq(l, "invalid") {
            Ok(AdsState::Invalid)
        } else if crate::strs::str_eq(l, "idle") {
            Ok(AdsState::Idle)
        } else if crate::strs::str_eq(l, "reset") {
            Ok(AdsState::Reset)
        } else if crate::strs::str_eq(l, "init") {
            Ok(AdsState::Init)
        } else if crate::strs::str_eq(l, "start") {
            Ok(AdsState::Start)
        } else if crate::strs::str_eq(l, "run") {
            Ok(AdsState::Run)
        } else if crate::strs::str_eq(l, "stop") {
            Ok(AdsState::Stop)
        } else if crate::strs::str_eq(l, "savecfg") {
            Ok(AdsState::SaveCfg)
        } else if crate::strs::str_eq(l, "loadcfg") {
            Ok(AdsState::LoadCfg)
        } else if crate::strs::str_eq(l, "powerfail") {
            Ok(AdsState::PowerFail)
        } else if crate::strs::str_eq(l, "powergood") {
            Ok(AdsState::PowerGood)
        } else if crate::strs::str_eq(l, "error") {
            Ok(AdsState::Error)
        } else if crate::strs::str_eq(l, "shutdown") {
            Ok(AdsState::Shutdown)
        } else if crate::strs::str_eq(l, "suspend") {
            Ok(AdsState::Suspend)
        } else if crate::strs::str_eq(l, "resume") {
            Ok(AdsState::Resume)
        } else if crate::strs::str_eq(l, "config") {
            Ok(AdsState::Config)
        } else if crate::strs::str_eq(l, "reconfig") {
            Ok(AdsState::Reconfig)
        } else if crate::strs::str_eq(l, "stopping") {
            Ok(AdsState::Stopping)
        } else if crate::strs::str_eq(l, "incompatible") {
            Ok(AdsState::Incompatible)
        } else if crate::strs::str_eq(l, "exception") {
            Ok(AdsState::Exception)
        } else {
            Err("invalid state name")
        }
    }
}

impl TryFrom<u16> for AdsState {
    type Error = &'static str;

    fn try_from(value: u16) -> (r: Result<Self, &'static str>) {
        AdsState::try_from_code(value)
    }
}

impl vstd::std_specs::convert::TryFromSpecImpl<u16> for AdsState {
    open spec fn obeys_try_from_spec() -> bool {
        true
    }

    open spec fn try_from_spec(value: u16) -> Result<Self, &'static str> {
        match state_of_code(value) {
            Some(s) => Ok(s),
            None => Err("invalid state constant"),
        }
    }
}

impl std::str::FromStr for AdsState {
    type Err = &'static str;

    fn from_str(s: &str) -> (r: Result<Self, Self::Err>)
        ensures
            match r {
                Ok(st) => state_of_name(s@) == Some(st),
                Err(m) => state_of_name(s@) is None && m == "invalid state name",
            },
    {
        AdsState::parse(s)
    }
}

/// Reading a state's wire number gives the state back.
pub proof fn lemma_state_code_roundtrip(s: AdsState)
    ensures
        state_of_code(state_code(s)) == Some(s),
{
}

/// Reading a state's name gives the state back.
pub proof fn lemma_state_name_roundtrip(s: AdsState)
    ensures
        state_of_name(state_name(s)) == Some(s),
{
    reveal_strlit("invalid");
    reveal_strlit("idle");
    reveal_strlit("reset");
    reveal_strlit("init");
    reveal_strlit("start");
    reveal_strlit("run");
    reveal_strlit("stop");
    reveal_strlit("savecfg");
    reveal_strlit("loadcfg");
    reveal_strlit("powerfail");
    reveal_strlit("powergood");
    reveal_strlit("error");
    reveal_strlit("shutdown");
    reveal_strlit("suspend");
    reveal_strlit("resume");
    reveal_strlit("config");
    reveal_strlit("reconfig");
    reveal_strlit("stopping");
    reveal_strlit("incompatible");
    reveal_strlit("exception");
    let n = state_name(s);
    assert(ascii_lowercase(n) =~= n);
    match s {
        AdsState::Invalid => {
        },
        AdsState::Idle => {
            assert(n != "invalid"@);
        },
        AdsState::Reset => {
            assert(n != "invalid"@);
            assert(n != "idle"@);
        },
        AdsState::Init => {
            assert(n != "invalid"@);
            assert(n[1] != "idle"@[1]);
            assert(n != "reset"@);
        },
        AdsState::Start => {
            assert(n != "invalid"@);
            assert(n != "idle"@);
            assert(n[0] != "reset"@[0]);
            assert(n != "init"@);
        },
        AdsState::Run => {
            assert(n != "invalid"@);
            assert(n != "idle"@);
            assert(n != "reset"@);
            assert(n != "init"@);
            assert(n != "start"@);
        },
        AdsState::Stop => {
            assert(n != "invalid"@);
            assert(n[0] != "idle"@[0]);
            assert(n != "reset"@);
            assert(n[0] != "init"@[0]);
            assert(n != "start"@);
            assert(n != "run"@);
        },
        AdsState::SaveCfg => {
            assert(n[0] != "invalid"@[0]);
            assert(n != "idle"@);
            assert(n != "reset"@);
            assert(n != "init"@);
            assert(n != "start"@);
            assert(n != "run"@);
            assert(n != "stop"@);
        },
        AdsState::LoadCfg => {
            assert(n[0] != "invalid"@[0]);
            assert(n != "idle"@);
            assert(n != "reset"@);
            assert(n != "init"@);
            assert(n != "start"@);
            assert(n != "run"@);
            assert(n != "stop"@);
            assert(n[0] != "savecfg"@[0]);
        },
        AdsState::PowerFail => {
            assert(n != "invalid"@);
            assert(n != "idle"@);
            assert(n != "reset"@);
            assert(n != "init"@);
            assert(n != "start"@);
            assert(n != "run"@);
            assert(n != "stop"@);
            assert(n != "savecfg"@);
            assert(n != "loadcfg"@);
        },
        AdsState::PowerGood => {
            assert(n != "invalid"@);
            assert(n != "idle"@);
            assert(n != "reset"@);
            assert(n != "init"@);
            assert(n != "start"@);
            assert(n != "run"@);
            assert(n != "stop"@);
            assert(n != "savecfg"@);
            assert(n != "loadcfg"@);
            assert(n[5] != "powerfail"@[5]);
        },
        AdsState::Error => {
            assert(n != "invalid"@);
            assert(n != "idle"@);
            assert(n[0] != "reset"@[0]);
            assert(n != "init"@);
            assert(n[0] != "start"@[0]);
            assert(n != "run"@);
            assert(n != "stop"@);
            assert(n != "savecfg"@);
            assert(n != "loadcfg"@);
            assert(n != "powerfail"@);
            assert(n != "powergood"@);
        },
        AdsState::Shutdown => {
            assert(n != "invalid"@);
            assert(n != "idle"@);
            assert(n != "reset"@);
            assert(n != "init"@);
            assert(n != "start"@);
            assert(n != "run"@);
            assert(n != "stop"@);
            assert(n != "savecfg"@);
            assert(n != "loadcfg"@);
            assert(n != "powerfail"@);
            assert(n != "powergood"@);
            assert(n != "error"@);
        },
        AdsState::Suspend => {
            assert(n[0] != "invalid"@[0]);
            assert(n != "idle"@);
            assert(n != "reset"@);
            assert(n != "init"@);
            assert(n != "start"@);
            assert(n != "run"@);
            assert(n != "stop"@);
            assert(n[1] != "savecfg"@[1]);
            assert(n[0] != "loadcfg"@[0]);
            assert(n != "powerfail"@);
            assert(n != "powergood"@);
            assert(n != "error"@);
            assert(n != "shutdown"@);
        },
        AdsState::Resume => {
            assert(n != "invalid"@);
            assert(n != "idle"@);
            assert(n != "reset"@);
            assert(n != "init"@);
            assert(n != "start"@);
            assert(n != "run"@);
            assert(n != "stop"@);
            assert(n != "savecfg"@);
            assert(n != "loadcfg"@);
            assert(n != "powerfail"@);
            assert(n != "powergood"@);
            assert(n != "error"@);
            assert(n != "shutdown"@);
            assert(n != "suspend"@);
        },
        AdsState::Config => {
            assert(n != "invalid"@);
            assert(n != "idle"@);
            assert(n != "reset"@);
            assert(n != "init"@);
            assert(n != "start"@);
            assert(n != "run"@);
            assert(n != "stop"@);
            assert(n != "savecfg"@);
            assert(n != "loadcfg"@);
            assert(n != "powerfail"@);
            assert(n != "powergood"@);
            assert(n != "error"@);
            assert(n != "shutdown"@);
            assert(n != "suspend"@);
            assert(n[0] != "resume"@[0]);
        },
        AdsState::Reconfig => {
            assert(n != "invalid"@);
            assert(n != "idle"@);
            assert(n != "reset"@);
            assert(n != "init"@);
            assert(n != "start"@);
            assert(n != "run"@);
            assert(n != "stop"@);
            assert(n != "savecfg"@);
            assert(n != "loadcfg"@);
            assert(n != "powerfail"@);
            assert(n != "powergood"@);
            assert(n != "error"@);
            assert(n[0] != "shutdown"@[0]);
            assert(n != "suspend"@);
            assert(n != "resume"@);
            assert(n != "config"@);
        },
        AdsState::Stopping => {
            assert(n != "invalid"@);
            assert(n != "idle"@);
            assert(n != "reset"@);
            assert(n != "init"@);
            assert(n != "start"@);
            assert(n != "run"@);
            assert(n != "stop"@);
            assert(n != "savecfg"@);
            assert(n != "loadcfg"@);
            assert(n != "powerfail"@);
            assert(n != "powergood"@);
            assert(n != "error"@);
            assert(n[1] != "shutdown"@[1]);
            assert(n != "suspend"@);
            assert(n != "resume"@);
            assert(n != "config"@);
            assert(n[0] != "reconfig"@[0]);
        },
        AdsState::Incompatible => {
            assert(n != "invalid"@);
            assert(n != "idle"@);
            assert(n != "reset"@);
            assert(n != "init"@);
            assert(n != "start"@);
            assert(n != "run"@);
            assert(n != "stop"@);
            assert(n != "savecfg"@);
            assert(n != "loadcfg"@);
            assert(n != "powerfail"@);
            assert(n != "powergood"@);
            assert(n != "error"@);
            assert(n != "shutdown"@);
            assert(n != "suspend"@);
            assert(n != "resume"@);
            assert(n != "config"@);
            assert(n != "reconfig"@);
            assert(n != "stopping"@);
        },
        AdsState::Exception => {
            assert(n != "invalid"@);
            assert(n != "idle"@);
            assert(n != "reset"@);
            assert(n != "init"@);
            assert(n != "start"@);
            assert(n != "run"@);
            assert(n != "stop"@);
            assert(n != "savecfg"@);
            assert(n != "loadcfg"@);
            assert(n[0] != "powerfail"@[0]);
            assert(n[0] != "powergood"@[0]);
            assert(n != "error"@);
            assert(n != "shutdown"@);
            assert(n != "suspend"@);
            assert(n != "resume"@);
            assert(n != "config"@);
            assert(n != "reconfig"@);
            assert(n != "stopping"@);
            assert(n != "incompatible"@);
        },
    }
}

/// The ADS state and the device state of a device.
#[derive(Debug, Clone, Copy, PartialEq, Eq)]
pub struct AdsStateInfo {
    pub ads_state: AdsState,
    pub device_state: u16,
}

// ----- The AMS header. -----
/// The AMS/TCP header and the AMS header of a packet.
#[derive(Debug, Clone, Copy, PartialEq, Eq)]
pub struct AdsHeader {
    /// 0x0 ADS command, 0x1 close port, 0x1000 open port, 0x1001 router
    /// note, 0x1002 get local NetID
    pub ams_cmd: u16,
    pub length: u32,
    pub dest_netid: AmsNetId,
    pub dest_port: u16,
    pub src_netid: AmsNetId,
    pub src_port: u16,
    pub command: u16,
    /// 0x01 response, 0x02 no return, 0x04 ADS command, 0x08 system
    /// command, 0x10 high priority, 0x20 with time stamp, 0x40 UDP, 0x80
    /// command during init phase, 0x8000 broadcast
    pub state_flags: u16,
    pub data_length: u32,
    pub error_code: u32,
    pub invoke_id: u32,
}

/// The 38 bytes of a header on the wire, every number little-endian.
pub open spec fn header_bytes(h: AdsHeader) -> Seq<u8> {
    u16_bytes(h.ams_cmd) + u32_bytes(h.length) + h.dest_netid.0@ + u16_bytes(h.dest_port)
        + h.src_netid.0@ + u16_bytes(h.src_port) + u16_bytes(h.command) + u16_bytes(
        h.state_flags,
    ) + u32_bytes(h.data_length) + u32_bytes(h.error_code) + u32_bytes(h.invoke_id)
}

/// The header that 38 bytes hold.
pub open spec fn header_of(b: Seq<u8>) -> AdsHeader {
    AdsHeader {
        ams_cmd: u16_le(b) as u16,
        length: u32_le(b.skip(2)) as u32,
        dest_netid: AmsNetId(
            [b[6], b[7], b[8], b[9], b[10], b[11]],
        ),
        dest_port: u16_le(b.skip(12)) as u16,
        src_netid: AmsNetId([b[14], b[15], b[16], b[17], b[18], b[19]]),
        src_port: u16_le(b.skip(20)) as u16,
        command: u16_le(b.skip(22)) as u16,
        state_flags: u16_le(b.skip(24)) as u16,
        data_length: u32_le(b.skip(26)) as u32,
        error_code: u32_le(b.skip(30)) as u32,
        invoke_id: u32_le(b.skip(34)) as u32,
    }
}

fn push_netid(out: &mut Vec<u8>, id: &AmsNetId)
    ensures
        final(out)@ == old(out)@ + id.0@,
{
    let mut i: usize = 0;
    while i < 6
        invariant
            i <= 6,
            out@ == old(out)@ + id.0@.take(i as int),
        decreases 6 - i,
    {
        out.push(id.0[i]);
        assert(id.0@.take(i + 1) =~= id.0@.take(i as int).push(id.0@[i as int]));
        i = i + 1;
    }
    assert(id.0@.take(6) =~= id.0@);
}

impl AdsHeader {
    /// Appends the header's 38 bytes to `out`.
    pub fn write_to(&self, out: &mut Vec<u8>)
        ensures
            final(out)@ == old(out)@ + header_bytes(*self),
    {
        push_u16_le(out, self.ams_cmd);
        push_u32_le(out, self.length);
        push_netid(out, &self.dest_netid);
        push_u16_le(out, self.dest_port);
        push_netid(out, &self.src_netid);
        push_u16_le(out, self.src_port);
        push_u16_le(out, self.command);
        push_u16_le(out, self.state_flags);
        push_u32_le(out, self.data_length);
        push_u32_le(out, self.error_code);
        push_u32_le(out, self.invoke_id);
        assert(final(out)@ =~= old(out)@ + header_bytes(*self));
    }

    /// The header held by exactly 38 bytes; `None` for any other length.
    pub fn read_from_bytes(b: &[u8]) -> (r: Option<AdsHeader>)
        ensures
            r is Some <==> b@.len() == ADS_HEADER_SIZE,
            r matches Some(h) ==> h == header_of(b@),
    {
        if b.len() != ADS_HEADER_SIZE {
            return None;
        }
        let h = AdsHeader {
            ams_cmd: read_u16_le(b),
            length: read_u32_le(&b[2..38]),
            dest_netid: AmsNetId([b[6], b[7], b[8], b[9], b[10], b[11]]),
            dest_port: read_u16_le(&b[12..38]),
            src_netid: AmsNetId([b[14], b[15], b[16], b[17], b[18], b[19]]),
            src_port: read_u16_le(&b[20..38]),
            command: read_u16_le(&b[22..38]),
            state_flags: read_u16_le(&b[24..38]),
            data_length: read_u32_le(&b[26..38]),
            error_code: read_u32_le(&b[30..38]),
            invoke_id: read_u32_le(&b[34..38]),
        };
        assert(b@.subrange(2, 38) =~= b@.skip(2));
        assert(b@.subrange(12, 38) =~= b@.skip(12));
        assert(b@.subrange(20, 38) =~= b@.skip(20));
        assert(b@.subrange(22, 38) =~= b@.skip(22));
        assert(b@.subrange(24, 38) =~= b@.skip(24));
        assert(b@.subrange(26, 38) =~= b@.skip(26));
        assert(b@.subrange(30, 38) =~= b@.skip(30));
        assert(b@.subrange(34, 38) =~= b@.skip(34));
        Some(h)
    }
}

/// Reading back the bytes of a header gives the header.
#[verifier::rlimit(50)]
pub proof fn lemma_header_roundtrip(h: AdsHeader)
    ensures
        header_bytes(h).len() == ADS_HEADER_SIZE,
        header_of(header_bytes(h)) == h,
{
    let b = header_bytes(h);
    crate::le::lemma_u16_roundtrip(h.ams_cmd);
    crate::le::lemma_u32_roundtrip(h.length);
    crate::le::lemma_u16_roundtrip(h.dest_port);
    crate::le::lemma_u16_roundtrip(h.src_port);
    crate::le::lemma_u16_roundtrip(h.command);
    crate::le::lemma_u16_roundtrip(h.state_flags);
    crate::le::lemma_u32_roundtrip(h.data_length);
    crate::le::lemma_u32_roundtrip(h.error_code);
    crate::le::lemma_u32_roundtrip(h.invoke_id);
    assert(b.skip(2).take(4) =~= u32_bytes(h.length));
    assert(b.take(2) =~= u16_bytes(h.ams_cmd));
    assert(b.skip(12).take(2) =~= u16_bytes(h.dest_port));
    assert(b.skip(20).take(2) =~= u16_bytes(h.src_port));
    assert(b.skip(22).take(2) =~= u16_bytes(h.command));
    assert(b.skip(24).take(2) =~= u16_bytes(h.state_flags));
    assert(b.skip(26).take(4) =~= u32_bytes(h.data_length));
    assert(b.skip(30).take(4) =~= u32_bytes(h.error_code));
    assert(b.skip(34).take(4) =~= u32_bytes(h.invoke_id));
    let d = header_of(b);
    assert(d.dest_netid.0 =~= h.dest_netid.0);
    assert(d.src_netid.0 =~= h.src_netid.0);
    assert(d.dest_netid == h.dest_netid);
    assert(d.src_netid == h.src_netid);
}

} // verus!
