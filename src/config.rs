//! Process configuration, read once at startup.
use vstd::prelude::*;
use vstd::utf8::encode_utf8;
use crate::number::{parse_usize, parsed_usize};

verus! {

pub const DEFAULT_MAX_REQUEST_SIZE: usize = 8192;

pub const DEFAULT_BUFFER_SIZE: usize = 2048;

/// A size setting: its value where it is an unsigned number that fits,
/// otherwise (absent or unreadable) the default.
pub open spec fn size_setting(s: Option<Seq<char>>, default: usize) -> usize {
    match s {
        Some(t) => match parsed_usize(encode_utf8(t)) {
            Some(v) => v as usize,
            None => default,
        },
        None => default,
    }
}

/// The text of a setting, if present.
pub open spec fn setting_view(s: Option<String>) -> Option<Seq<char>> {
    match s {
        Some(t) => Some(t@),
        None => None,
    }
}

/// The port setting: its text where it is an unsigned number that fits a port
/// (at most 65535), otherwise (absent or unreadable) `1234`.
pub open spec fn port_setting(s: Option<Seq<char>>) -> Seq<char> {
    match s {
        Some(t) => match parsed_usize(encode_utf8(t)) {
            Some(v) => if v <= 65535 {
                t
            } else {
                "1234"@
            },
            None => "1234"@,
        },
        None => "1234"@,
    }
}

pub struct ServerConfig {
    /// The size cap of one request, in bytes.
    pub max_request_size: usize,
    /// How many bytes one socket read asks for.
    pub buffer_size: usize,
    pub port: String,
}

fn read_size_setting(s: Option<String>, default: usize) -> (r: usize)
    ensures
        r == size_setting(setting_view(s), default),
{
    match s {
        Some(t) => match parse_usize(t.as_str().as_bytes()) {
            Some(v) => v,
            None => default,
        },
        None => default,
    }
}

impl ServerConfig {
    /// Builds the configuration from the raw settings, each of which may be absent.
    pub fn from_settings(
        max_request_size: Option<String>,
        buffer_size: Option<String>,
        port: Option<String>,
    ) -> (r: ServerConfig)
        ensures
            r.max_request_size == size_setting(setting_view(max_request_size), DEFAULT_MAX_REQUEST_SIZE),
            r.buffer_size == size_setting(setting_view(buffer_size), DEFAULT_BUFFER_SIZE),
            r.port@ == port_setting(setting_view(port)),
    {
        let port = match port {
            Some(p) => match parse_usize(p.as_str().as_bytes()) {
                Some(v) => if v <= 65535 {
                    p
                } else {
                    String::from_str("1234")
                },
                None => String::from_str("1234"),
            },
            None => String::from_str("1234"),
        };
        ServerConfig {
            max_request_size: read_size_setting(max_request_size, DEFAULT_MAX_REQUEST_SIZE),
            buffer_size: read_size_setting(buffer_size, DEFAULT_BUFFER_SIZE),
            port,
        }
    }
}

} // verus!
