//! Control-channel opcodes and their payload shapes.
//!
//! Each opcode is carried on the wire as a single tag byte: a fixed offset
//! plus the opcode's dense index. Decoders subtract the offset and reject
//! unmapped values.

use vstd::prelude::*;

verus! {

/// Offset added to an opcode's index to form its wire tag byte.
pub const COMMAND_BYTE_OFFSET: u8 = 69;

/// A control-channel opcode.
#[derive(Clone, Copy, Debug, PartialEq, Eq, Structural)]
pub enum TcpCommandId {
    HelloFromClient,
    HelloFromServer,
    ErrorResponse,
    GetUserList,
    UserList,
    GetRoomList,
    RoomList,
    CreateRoom,
    CreateRoomSuccess,
    DeleteRoom,
    DeleteRoomSuccess,
    JoinRoom,
    JoinRoomSuccess,
    LeaveRoom,
    OtherUserJoinedRoom,
    OtherUserLeftRoom,
}

/// The shape of the body that follows an opcode's tag byte.
#[derive(Clone, Copy, Debug, PartialEq, Eq, Structural)]
pub enum TcpCommandPayloadType {
    /// No body.
    Simple,
    /// One length byte, then that many bytes of text.
    Text,
    /// One length byte, then that many raw bytes.
    Bytes,
    /// One count byte, then that many length-prefixed texts.
    TextList,
}

/// The wire tag byte of each opcode: the fixed offset plus its dense index.
pub open spec fn spec_id_byte(id: TcpCommandId) -> u8 {
    match id {
        TcpCommandId::HelloFromClient => 69,
        TcpCommandId::HelloFromServer => 70,
        TcpCommandId::ErrorResponse => 71,
        TcpCommandId::GetUserList => 72,
        TcpCommandId::UserList => 73,
        TcpCommandId::GetRoomList => 74,
        TcpCommandId::RoomList => 75,
        TcpCommandId::CreateRoom => 76,
        TcpCommandId::CreateRoomSuccess => 77,
        TcpCommandId::DeleteRoom => 78,
        TcpCommandId::DeleteRoomSuccess => 79,
        TcpCommandId::JoinRoom => 80,
        TcpCommandId::JoinRoomSuccess => 81,
        TcpCommandId::LeaveRoom => 82,
        TcpCommandId::OtherUserJoinedRoom => 83,
        TcpCommandId::OtherUserLeftRoom => 84,
    }
}

/// The opcode of a tag byte, if the byte maps to one.
pub open spec fn spec_id_of_byte(b: u8) -> Option<TcpCommandId> {
    if b == 69 {
        Some(TcpCommandId::HelloFromClient)
    } else if b == 70 {
        Some(TcpCommandId::HelloFromServer)
    } else if b == 71 {
        Some(TcpCommandId::ErrorResponse)
    } else if b == 72 {
        Some(TcpCommandId::GetUserList)
    } else if b == 73 {
        Some(TcpCommandId::UserList)
    } else if b == 74 {
        Some(TcpCommandId::GetRoomList)
    } else if b == 75 {
        Some(TcpCommandId::RoomList)
    } else if b == 76 {
        Some(TcpCommandId::CreateRoom)
    } else if b == 77 {
        Some(TcpCommandId::CreateRoomSuccess)
    } else if b == 78 {
        Some(TcpCommandId::DeleteRoom)
    } else if b == 79 {
        Some(TcpCommandId::DeleteRoomSuccess)
    } else if b == 80 {
        Some(TcpCommandId::JoinRoom)
    } else if b == 81 {
        Some(TcpCommandId::JoinRoomSuccess)
    } else if b == 82 {
        Some(TcpCommandId::LeaveRoom)
    } else if b == 83 {
        Some(TcpCommandId::OtherUserJoinedRoom)
    } else if b == 84 {
        Some(TcpCommandId::OtherUserLeftRoom)
    } else {
        None
    }
}

/// The payload shape each opcode carries.
pub open spec fn spec_payload_type(id: TcpCommandId) -> TcpCommandPayloadType {
    match id {
        TcpCommandId::HelloFromServer => TcpCommandPayloadType::Simple,
        TcpCommandId::GetUserList => TcpCommandPayloadType::Simple,
        TcpCommandId::GetRoomList => TcpCommandPayloadType::Simple,
        TcpCommandId::CreateRoomSuccess => TcpCommandPayloadType::Simple,
        TcpCommandId::DeleteRoomSuccess => TcpCommandPayloadType::Simple,
        TcpCommandId::LeaveRoom => TcpCommandPayloadType::Simple,
        TcpCommandId::HelloFromClient => TcpCommandPayloadType::Text,
        TcpCommandId::ErrorResponse => TcpCommandPayloadType::Text,
        TcpCommandId::CreateRoom => TcpCommandPayloadType::Text,
        TcpCommandId::DeleteRoom => TcpCommandPayloadType::Text,
        TcpCommandId::JoinRoom => TcpCommandPayloadType::Text,
        TcpCommandId::UserList => TcpCommandPayloadType::TextList,
        TcpCommandId::RoomList => TcpCommandPayloadType::TextList,
        TcpCommandId::JoinRoomSuccess => TcpCommandPayloadType::Bytes,
        TcpCommandId::OtherUserJoinedRoom => TcpCommandPayloadType::Bytes,
        TcpCommandId::OtherUserLeftRoom => TcpCommandPayloadType::Bytes,
    }
}

impl TcpCommandId {
    /// The tag byte this opcode is written as on the wire.
    pub fn to_byte(&self) -> (r: u8)
        ensures
            r == spec_id_byte(*self),
    {
        match self {
            TcpCommandId::HelloFromClient => 69,
            TcpCommandId::HelloFromServer => 70,
            TcpCommandId::ErrorResponse => 71,
            TcpCommandId::GetUserList => 72,
            TcpCommandId::UserList => 73,
            TcpCommandId::GetRoomList => 74,
            TcpCommandId::RoomList => 75,
            TcpCommandId::CreateRoom => 76,
            TcpCommandId::CreateRoomSuccess => 77,
            TcpCommandId::DeleteRoom => 78,
            TcpCommandId::DeleteRoomSuccess => 79,
            TcpCommandId::JoinRoom => 80,
            TcpCommandId::JoinRoomSuccess => 81,
            TcpCommandId::LeaveRoom => 82,
            TcpCommandId::OtherUserJoinedRoom => 83,
            TcpCommandId::OtherUserLeftRoom => 84,
        }
    }

    /// The opcode a received tag byte stands for; `None` for an unmapped byte.
    pub fn from_byte(byte: u8) -> (r: Option<TcpCommandId>)
        ensures
            r == spec_id_of_byte(byte),
    {
        if byte == 69 {
            Some(TcpCommandId::HelloFromClient)
        } else if byte == 70 {
            Some(TcpCommandId::HelloFromServer)
        } else if byte == 71 {
            Some(TcpCommandId::ErrorResponse)
        } else if byte == 72 {
            Some(TcpCommandId::GetUserList)
        } else if byte == 73 {
            Some(TcpCommandId::UserList)
        } else if byte == 74 {
            Some(TcpCommandId::GetRoomList)
        } else if byte == 75 {
            Some(TcpCommandId::RoomList)
        } else if byte == 76 {
            Some(TcpCommandId::CreateRoom)
        } else if byte == 77 {
            Some(TcpCommandId::CreateRoomSuccess)
        } else if byte == 78 {
            Some(TcpCommandId::DeleteRoom)
        } else if byte == 79 {
            Some(TcpCommandId::DeleteRoomSuccess)
        } else if byte == 80 {
            Some(TcpCommandId::JoinRoom)
        } else if byte == 81 {
            Some(TcpCommandId::JoinRoomSuccess)
        } else if byte == 82 {
            Some(TcpCommandId::LeaveRoom)
        } else if byte == 83 {
            Some(TcpCommandId::OtherUserJoinedRoom)
        } else if byte == 84 {
            Some(TcpCommandId::OtherUserLeftRoom)
        } else {
            None
        }
    }

    /// The payload shape this opcode carries.
    pub fn get_payload_type(&self) -> (r: TcpCommandPayloadType)
        ensures
            r == spec_payload_type(*self),
    {
        match self {
            TcpCommandId::HelloFromServer => TcpCommandPayloadType::Simple,
            TcpCommandId::GetUserList => TcpCommandPayloadType::Simple,
            TcpCommandId::GetRoomList => TcpCommandPayloadType::Simple,
            TcpCommandId::CreateRoomSuccess => TcpCommandPayloadType::Simple,
            TcpCommandId::DeleteRoomSuccess => TcpCommandPayloadType::Simple,
            TcpCommandId::LeaveRoom => TcpCommandPayloadType::Simple,
            TcpCommandId::HelloFromClient => TcpCommandPayloadType::Text,
            TcpCommandId::ErrorResponse => TcpCommandPayloadType::Text,
            TcpCommandId::CreateRoom => TcpCommandPayloadType::Text,
            TcpCommandId::DeleteRoom => TcpCommandPayloadType::Text,
            TcpCommandId::JoinRoom => TcpCommandPayloadType::Text,
            TcpCommandId::UserList => TcpCommandPayloadType::TextList,
            TcpCommandId::RoomList => TcpCommandPayloadType::TextList,
            TcpCommandId::JoinRoomSuccess => TcpCommandPayloadType::Bytes,
            TcpCommandId::OtherUserJoinedRoom => TcpCommandPayloadType::Bytes,
            TcpCommandId::OtherUserLeftRoom => TcpCommandPayloadType::Bytes,
        }
    }
}

/// A tag byte maps back to the opcode it was written from.
pub proof fn lemma_id_byte_roundtrip(id: TcpCommandId)
    ensures
        spec_id_of_byte(spec_id_byte(id)) == Some(id),
{
}

} // verus!
