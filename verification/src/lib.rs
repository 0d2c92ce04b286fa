//! Relay and client-side protocol logic for a terminal group-call system.
//!
//! A reliable control channel carries framed commands (handshake, room and
//! user management); an unreliable datagram channel carries media frames,
//! chunked and optionally delta-compressed against the previous frame.
//! This crate holds the wire codecs, the registries and their command
//! dispatcher, the datagram relay decisions, and the client's fragment
//! reassembly and delta reconstruction, all with verified contracts.
//! Socket, channel and terminal plumbing lives outside the crate.

use vstd::prelude::*;
use vstd::string::StringSliceAdditionalSpecFns;

pub mod byteops;
pub mod client;
pub mod delta;
pub mod dispatch;
pub mod fragment;
pub mod messages;
pub mod precall;
pub mod rate_limit;
pub mod relay;
pub mod room;
pub mod sender;
pub mod server_state;
pub mod tcp_command;
pub mod tcp_command_id;

verus! {

/// Default port of the reliable control channel.
pub const TCP_PORT: u16 = 8040;

/// Default port of the datagram media channel.
pub const UDP_PORT: u16 = 8039;

/// Longest accepted username or room name, in bytes.
pub const MAX_NAME_LENGTH: usize = 15;

/// Length in bytes of a `RoomID` and of a `StreamID`.
pub const ID_LEN: usize = 4;

/// A byte that may appear in a username or room name:
/// ASCII letters, digits, underscore and hyphen.
pub open spec fn is_name_byte(b: u8) -> bool {
    (65 <= b <= 90)  // 'A'..='Z'
    || (97 <= b <= 122)  // 'a'..='z'
    || (48 <= b <= 57)  // '0'..='9'
    || b == 95  // '_'
    || b == 45  // '-'
}

/// Every byte of `s` is drawn from the name character class.
pub open spec fn all_name_bytes(s: Seq<u8>) -> bool {
    forall|i: int| 0 <= i < s.len() ==> is_name_byte(#[trigger] s[i])
}

/// Whether every byte of `name` is a letter, digit, underscore or hyphen.
/// Length is not checked here; callers bound it separately.
pub fn is_valid_name_bytes(name: &[u8]) -> (r: bool)
    ensures
        r == all_name_bytes(name@),
{
    let mut i: usize = 0;
    while i < name.len()
        invariant
            0 <= i <= name@.len(),
            forall|j: int| 0 <= j < i ==> is_name_byte(#[trigger] name@[j]),
        decreases name@.len() - i,
    {
        let b = name[i];
        if !((65 <= b && b <= 90) || (97 <= b && b <= 122) || (48 <= b && b <= 57) || b == 95
            || b == 45) {
            return false;
        }
        i = i + 1;
    }
    true
}

/// Whether `name` consists only of letters, digits, underscores and hyphens.
pub fn is_valid_name(name: &str) -> (r: bool)
    ensures
        r == all_name_bytes(name.spec_bytes()),
{
    is_valid_name_bytes(name.as_bytes())
}

} // verus!
