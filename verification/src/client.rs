//! The client's side of the control-channel handshake.
//!
//! The connection, prompt and call plumbing live with the caller; here
//! are the frames the client sends and the reading of the server's
//! answers.

use vstd::prelude::*;

use crate::tcp_command::{TcpCommand, TcpCommandV};
use crate::tcp_command_id::TcpCommandId;
use vstd::slice::slice_to_vec;

verus! {

/// How the server answered the client's hello.
pub enum HandshakeReply {
    /// The server accepted the username; the call interface may start.
    Accepted,
    /// The server refused, with the reason it sent.
    Refused(Vec<u8>),
    /// Anything else: a protocol violation, fatal to the connection.
    Unexpected,
}

/// A client endpoint of the control channel.
pub struct Client;

impl Client {
    /// The frame opening a session under `username`.
    pub fn hello_frame(username: &[u8]) -> (r: TcpCommand)
        ensures
            r@ == TcpCommandV::Text(TcpCommandId::HelloFromClient, username@),
    {
        TcpCommand::Text(TcpCommandId::HelloFromClient, slice_to_vec(username))
    }

    /// Reads the server's first answer: a server hello opens the
    /// session, an error response carries the refusal, anything else
    /// breaks the connection.
    pub fn read_handshake_reply(cmd: &TcpCommand) -> (r: HandshakeReply)
        ensures
            match cmd@ {
                TcpCommandV::Simple(id) => if id == TcpCommandId::HelloFromServer {
                    r is Accepted
                } else {
                    r is Unexpected
                },
                TcpCommandV::Text(id, msg) => if id == TcpCommandId::ErrorResponse {
                    r matches HandshakeReply::Refused(m) && m@ == msg
                } else {
                    r is Unexpected
                },
                _ => r is Unexpected,
            },
    {
        match cmd {
            TcpCommand::Simple(TcpCommandId::HelloFromServer) => HandshakeReply::Accepted,
            TcpCommand::Text(TcpCommandId::ErrorResponse, msg) => HandshakeReply::Refused(
                slice_to_vec(msg.as_slice()),
            ),
            _ => HandshakeReply::Unexpected,
        }
    }

    /// The frame asking to leave the current room.
    pub fn leave_frame() -> (r: TcpCommand)
        ensures
            r@ == TcpCommandV::Simple(TcpCommandId::LeaveRoom),
    {
        TcpCommand::Simple(TcpCommandId::LeaveRoom)
    }
}

} // verus!
