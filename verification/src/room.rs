//! Room records: name, member list and the two stream tables.

use vstd::prelude::*;

use crate::{all_name_bytes, ID_LEN, MAX_NAME_LENGTH};

verus! {

/// A username or room name of accepted length and character class.
pub open spec fn spec_valid_name(s: Seq<u8>) -> bool {
    1 <= s.len() <= MAX_NAME_LENGTH && all_name_bytes(s)
}

/// `x` occurs among the byte strings of `v`.
pub open spec fn spec_contains_bytes(v: Seq<Vec<u8>>, x: Seq<u8>) -> bool {
    exists|i: int| 0 <= i < v.len() && #[trigger] v[i]@ == x
}

/// No byte string occurs twice in `v`.
pub open spec fn spec_names_unique(v: Seq<Vec<u8>>) -> bool {
    forall|i: int, j: int|
        0 <= i < v.len() && 0 <= j < v.len() && #[trigger] v[i]@ == #[trigger] v[j]@ ==> i == j
}

/// One stream of one participant: its identifier and, once the first
/// datagram carrying it has arrived, the sender's learned address.
/// An address is an opaque handle the caller assigns to a peer endpoint.
pub struct StreamEntry {
    pub sid: Vec<u8>,
    pub addr: Option<u64>,
}

/// The identifier `sid` occurs in the table `t`.
pub open spec fn spec_table_has(t: Seq<StreamEntry>, sid: Seq<u8>) -> bool {
    exists|i: int| 0 <= i < t.len() && #[trigger] t[i].sid@ == sid
}

/// No identifier occurs twice in the table `t`.
pub open spec fn spec_table_unique(t: Seq<StreamEntry>) -> bool {
    forall|i: int, j: int|
        0 <= i < t.len() && 0 <= j < t.len() && #[trigger] t[i].sid@ == #[trigger] t[j].sid@ ==> i
            == j
}

/// Every identifier in the table has the expected length.
pub open spec fn spec_table_ids_sized(t: Seq<StreamEntry>) -> bool {
    forall|i: int| 0 <= i < t.len() ==> #[trigger] t[i].sid@.len() == ID_LEN
}

/// A room: its identifier on the datagram channel, its name, the ordered
/// member usernames, and one stream table per modality.
pub struct Room {
    pub id: Vec<u8>,
    pub name: Vec<u8>,
    pub users: Vec<Vec<u8>>,
    pub video_streams: Vec<StreamEntry>,
    pub audio_streams: Vec<StreamEntry>,
}

impl Room {
    /// The identifier `sid` occurs in either of this room's tables.
    pub open spec fn spec_has_stream(self, sid: Seq<u8>) -> bool {
        spec_table_has(self.video_streams@, sid) || spec_table_has(self.audio_streams@, sid)
    }

    /// The username occurs among this room's members.
    pub open spec fn spec_has_user(self, name: Seq<u8>) -> bool {
        spec_contains_bytes(self.users@, name)
    }

    /// Internal consistency of one room: identifier and name well formed,
    /// each member at most once, each identifier at most once and in only
    /// one of the two tables.
    pub open spec fn spec_wf(self) -> bool {
        &&& self.id@.len() == ID_LEN
        &&& spec_valid_name(self.name@)
        &&& spec_names_unique(self.users@)
        &&& spec_table_unique(self.video_streams@)
        &&& spec_table_unique(self.audio_streams@)
        &&& spec_table_ids_sized(self.video_streams@)
        &&& spec_table_ids_sized(self.audio_streams@)
        &&& forall|i: int, j: int|
            0 <= i < self.video_streams@.len() && 0 <= j < self.audio_streams@.len()
                ==> #[trigger] self.video_streams@[i].sid@ != #[trigger] self.audio_streams@[j].sid@
    }

    /// A new room with no members and empty stream tables.
    pub fn new(id: Vec<u8>, name: Vec<u8>) -> (r: Room)
        ensures
            r.id == id,
            r.name == name,
            r.users@.len() == 0,
            r.video_streams@.len() == 0,
            r.audio_streams@.len() == 0,
    {
        Room { id, name, users: Vec::new(), video_streams: Vec::new(), audio_streams: Vec::new() }
    }
}

} // verus!
