//! The control-channel handshake and command dispatcher.
//!
//! Every handler takes the registries and a decoded frame and returns the
//! frames to write back on this connection and the notifications to queue
//! on other users' outbound channels. Socket reads and writes stay with
//! the caller.

use vstd::prelude::*;

use crate::byteops::{clone_names, push_bytes};
use crate::messages::{
    msg_already_in_room, msg_room_exists, msg_room_missing, msg_room_name_bad_chars,
    msg_room_name_empty, msg_room_name_too_long, msg_room_occupied, msg_unsupported,
    msg_username_bad_chars, msg_username_empty, msg_username_taken, msg_username_too_long,
    spec_msg_already_in_room, spec_msg_room_exists, spec_msg_room_missing,
    spec_msg_room_name_bad_chars, spec_msg_room_name_empty, spec_msg_room_name_too_long,
    spec_msg_room_occupied, spec_msg_unsupported, spec_msg_username_bad_chars,
    spec_msg_username_empty, spec_msg_username_taken, spec_msg_username_too_long,
};
use crate::room::{spec_contains_bytes, spec_valid_name};
use crate::server_state::ServerState;
use crate::tcp_command::{spec_cmd_id, TcpCommand, TcpCommandV};
use crate::tcp_command_id::{spec_id_byte, TcpCommandId};
use crate::{all_name_bytes, is_valid_name_bytes, MAX_NAME_LENGTH};
use vstd::slice::slice_to_vec;

verus! {

/// An ASCII whitespace byte, as trimmed from the edges of a name.
pub open spec fn spec_ws_byte(b: u8) -> bool {
    b == 32 || (9 <= b <= 13)
}

/// Nothing but whitespace: such a name reads as empty.
pub open spec fn spec_blank(s: Seq<u8>) -> bool {
    forall|i: int| 0 <= i < s.len() ==> spec_ws_byte(#[trigger] s[i])
}

/// Whether the name holds no byte besides ASCII whitespace.
pub fn is_blank(name: &[u8]) -> (r: bool)
    ensures
        r == spec_blank(name@),
{
    let mut i: usize = 0;
    while i < name.len()
        invariant
            0 <= i <= name@.len(),
            forall|j: int| 0 <= j < i ==> spec_ws_byte(#[trigger] name@[j]),
        decreases name@.len() - i,
    {
        let b = name[i];
        if !(b == 32 || (9 <= b && b <= 13)) {
            return false;
        }
        i = i + 1;
    }
    true
}

/// An `ErrorResponse` frame carrying the given text.
pub fn error_response(msg: Vec<u8>) -> (r: TcpCommand)
    ensures
        r@ == TcpCommandV::Text(TcpCommandId::ErrorResponse, msg@),
{
    TcpCommand::Text(TcpCommandId::ErrorResponse, msg)
}

/// How a handshake frame was answered.
pub enum HandshakeOutcome {
    /// The first frame was not a client hello; the connection is closed
    /// without an answer.
    Invalid,
    /// The username was rejected; the error is sent, then the connection
    /// is closed.
    Refused(TcpCommand),
    /// The username was registered; the reply is the server hello.
    Accepted(TcpCommand),
}

/// One connection's handshake and teardown.
pub struct TcpHandler;

impl TcpHandler {
    /// Answers the first frame of a connection. A valid, untaken username
    /// is registered; anything else is refused with the exact reason.
    pub fn handle_handshake(state: &mut ServerState, cmd: &TcpCommand) -> (r: HandshakeOutcome)
        requires
            old(state).spec_wf(),
        ensures
            final(state).spec_wf(),
            final(state).rooms == old(state).rooms,
            match cmd@ {
                TcpCommandV::Text(id, u) => if id == TcpCommandId::HelloFromClient {
                    if u.len() == 0 {
                        *final(state) == *old(state) && (r matches HandshakeOutcome::Refused(e)
                            && e@ == TcpCommandV::Text(
                            TcpCommandId::ErrorResponse,
                            spec_msg_username_empty(),
                        ))
                    } else if u.len() > MAX_NAME_LENGTH {
                        *final(state) == *old(state) && (r matches HandshakeOutcome::Refused(e)
                            && e@ == TcpCommandV::Text(
                            TcpCommandId::ErrorResponse,
                            spec_msg_username_too_long(),
                        ))
                    } else if !all_name_bytes(u) {
                        *final(state) == *old(state) && (r matches HandshakeOutcome::Refused(e)
                            && e@ == TcpCommandV::Text(
                            TcpCommandId::ErrorResponse,
                            spec_msg_username_bad_chars(),
                        ))
                    } else if spec_contains_bytes(old(state).users@, u) {
                        *final(state) == *old(state) && (r matches HandshakeOutcome::Refused(e)
                            && e@ == TcpCommandV::Text(
                            TcpCommandId::ErrorResponse,
                            spec_msg_username_taken(),
                        ))
                    } else {
                        let post = *final(state);
                        let prev = *old(state);
                        &&& (r matches HandshakeOutcome::Accepted(h) && h@ == TcpCommandV::Simple(
                            TcpCommandId::HelloFromServer,
                        ))
                        &&& post.users@.len() == prev.users@.len() + 1
                        &&& post.users@.last()@ == u
                        &&& forall|i: int|
                            0 <= i < prev.users@.len() ==> post.users@[i] == prev.users@[i]
                    }
                } else {
                    *final(state) == *old(state) && r is Invalid
                },
                _ => *final(state) == *old(state) && r is Invalid,
            },
    {
        let username = match cmd {
            TcpCommand::Text(TcpCommandId::HelloFromClient, u) => u,
            _ => {
                return HandshakeOutcome::Invalid;
            },
        };
        if username.len() == 0 {
            return HandshakeOutcome::Refused(error_response(msg_username_empty()));
        }
        if username.len() > MAX_NAME_LENGTH {
            return HandshakeOutcome::Refused(error_response(msg_username_too_long()));
        }
        if !is_valid_name_bytes(username.as_slice()) {
            return HandshakeOutcome::Refused(error_response(msg_username_bad_chars()));
        }
        if state.has_user(username.as_slice()) {
            return HandshakeOutcome::Refused(error_response(msg_username_taken()));
        }
        let name_copy = slice_to_vec(username.as_slice());
        state.add_user(name_copy);
        HandshakeOutcome::Accepted(TcpCommand::Simple(TcpCommandId::HelloFromServer))
    }
}

/// What one command worked out to: the frames to write back on this
/// connection, in order, and the notifications to queue on other users'
/// outbound channels, in order.
pub struct DispatchOutcome {
    pub replies: Vec<TcpCommand>,
    pub notices: Vec<(Vec<u8>, TcpCommand)>,
}

/// An outcome of a single error reply and no notifications.
fn error_outcome(msg: Vec<u8>) -> (r: DispatchOutcome)
    ensures
        r.replies@.len() == 1,
        r.replies@[0]@ == TcpCommandV::Text(TcpCommandId::ErrorResponse, msg@),
        r.notices@.len() == 0,
{
    let mut replies: Vec<TcpCommand> = Vec::new();
    replies.push(error_response(msg));
    DispatchOutcome { replies, notices: Vec::new() }
}

/// The member's view after a join: every pre-existing member is told the
/// two new stream identifiers, and the joiner is told every pre-existing
/// one, so both sides finish with symmetric knowledge.
pub open spec fn spec_join_notices(
    members: Seq<Seq<u8>>,
    vsid: Seq<u8>,
    asid: Seq<u8>,
    notices: Seq<(Vec<u8>, TcpCommand)>,
) -> bool {
    &&& notices.len() == 2 * members.len()
    &&& forall|m: int|
        0 <= m < members.len() ==> (#[trigger] notices[2 * m]).0@ == members[m] && notices[2
            * m].1@ == TcpCommandV::Bytes(TcpCommandId::OtherUserJoinedRoom, vsid)
    &&& forall|m: int|
        0 <= m < members.len() ==> (#[trigger] notices[2 * m + 1]).0@ == members[m] && notices[2
            * m + 1].1@ == TcpCommandV::Bytes(TcpCommandId::OtherUserJoinedRoom, asid)
}

/// The departure notices of one session: every remaining member of the
/// room is told each departing stream identifier.
pub open spec fn spec_left_notices(
    members: Seq<Seq<u8>>,
    vsid: Seq<u8>,
    asid: Seq<u8>,
    notices: Seq<(Vec<u8>, TcpCommand)>,
) -> bool {
    &&& notices.len() == 2 * members.len()
    &&& forall|m: int|
        0 <= m < members.len() ==> (#[trigger] notices[2 * m]).0@ == members[m] && notices[2
            * m].1@ == TcpCommandV::Bytes(TcpCommandId::OtherUserLeftRoom, vsid)
    &&& forall|m: int|
        0 <= m < members.len() ==> (#[trigger] notices[2 * m + 1]).0@ == members[m] && notices[2
            * m + 1].1@ == TcpCommandV::Bytes(TcpCommandId::OtherUserLeftRoom, asid)
}

/// Appends one notice per stream identifier for every listed member.
fn push_member_notices(
    notices: &mut Vec<(Vec<u8>, TcpCommand)>,
    members: &Vec<Vec<u8>>,
    id: TcpCommandId,
    vsid: &[u8],
    asid: &[u8],
)
    requires
        old(notices)@.len() == 0,
    ensures
        final(notices)@.len() == 2 * members@.len(),
        forall|m: int|
            0 <= m < members@.len() ==> (#[trigger] final(notices)@[2 * m]).0@ == members@[m]@
                && final(notices)@[2 * m].1@ == TcpCommandV::Bytes(id, vsid@),
        forall|m: int|
            0 <= m < members@.len() ==> (#[trigger] final(notices)@[2 * m + 1]).0@ == members@[m]@
                && final(notices)@[2 * m + 1].1@ == TcpCommandV::Bytes(id, asid@),
{
    let mut m: usize = 0;
    while m < members.len()
        invariant
            0 <= m <= members@.len(),
            notices@.len() == 2 * m,
            forall|j: int|
                0 <= j < m ==> (#[trigger] notices@[2 * j]).0@ == members@[j]@ && notices@[2
                    * j].1@ == TcpCommandV::Bytes(id, vsid@),
            forall|j: int|
                0 <= j < m ==> (#[trigger] notices@[2 * j + 1]).0@ == members@[j]@ && notices@[2 * j
                    + 1].1@ == TcpCommandV::Bytes(id, asid@),
        decreases members@.len() - m,
    {
        notices.push((slice_to_vec(members[m].as_slice()), TcpCommand::Bytes(id, slice_to_vec(vsid))));
        notices.push((slice_to_vec(members[m].as_slice()), TcpCommand::Bytes(id, slice_to_vec(asid))));
        m = m + 1;
    }
}

/// Executes decoded commands against the registries.
pub struct TcpCommandHandler;

impl TcpCommandHandler {
    /// The `UserList` answer: every registered username, in connection
    /// order.
    pub fn handle_get_user_list(state: &ServerState) -> (r: TcpCommand)
        ensures
            r@ == TcpCommandV::TextList(TcpCommandId::UserList, state.users.deep_view()),
    {
        let names = clone_names(&state.users);
        proof {
            assert(names.deep_view() =~= state.users.deep_view()) by {
                assert(forall|i: int|
                    0 <= i < names@.len() ==> #[trigger] names.deep_view()[i] == names@[i]@);
                assert(forall|i: int|
                    0 <= i < state.users@.len() ==> #[trigger] state.users.deep_view()[i]
                        == state.users@[i]@);
            }
        }
        TcpCommand::TextList(TcpCommandId::UserList, names)
    }

    /// The `RoomList` answer: every room's name, in creation order.
    pub fn handle_get_room_list(state: &ServerState) -> (r: TcpCommand)
        ensures
            r@ == TcpCommandV::TextList(
                TcpCommandId::RoomList,
                Seq::new(state.rooms@.len(), |i: int| state.rooms@[i].name@),
            ),
    {
        let mut names: Vec<Vec<u8>> = Vec::new();
        let mut i: usize = 0;
        while i < state.rooms.len()
            invariant
                0 <= i <= state.rooms@.len(),
                names@.len() == i,
                forall|j: int| 0 <= j < i ==> #[trigger] names@[j]@ == state.rooms@[j].name@,
            decreases state.rooms@.len() - i,
        {
            names.push(slice_to_vec(state.rooms[i].name.as_slice()));
            i = i + 1;
        }
        proof {
            assert(names.deep_view() =~= Seq::new(
                state.rooms@.len(),
                |i: int| state.rooms@[i].name@,
            )) by {
                assert(forall|j: int|
                    0 <= j < names@.len() ==> #[trigger] names.deep_view()[j] == names@[j]@);
            }
        }
        TcpCommand::TextList(TcpCommandId::RoomList, names)
    }

    /// Creates a room under a freshly drawn identifier. The name must be
    /// non-blank, short enough, of the accepted characters, and unused.
    pub fn handle_create_room(state: &mut ServerState, room_name: &[u8], rid: Vec<u8>) -> (r:
        TcpCommand)
        requires
            old(state).spec_wf(),
            rid@.len() == crate::ID_LEN,
            !old(state).spec_has_room_id(rid@),
        ensures
            final(state).spec_wf(),
            final(state).users == old(state).users,
            spec_create_done(*old(state), *final(state), room_name@, rid@, r@),
    {
        if is_blank(room_name) {
            return error_response(msg_room_name_empty());
        }
        if room_name.len() > MAX_NAME_LENGTH {
            return error_response(msg_room_name_too_long());
        }
        if !is_valid_name_bytes(room_name) {
            return error_response(msg_room_name_bad_chars());
        }
        proof {
            assert(!spec_ws_byte(room_name@[0]));
            assert(room_name@.len() >= 1);
        }
        match state.find_room_by_name(room_name) {
            Some(_) => error_response(msg_room_exists(room_name)),
            None => {
                let name_copy = slice_to_vec(room_name);
                state.add_room(rid, name_copy);
                TcpCommand::Simple(TcpCommandId::CreateRoomSuccess)
            },
        }
    }

    /// Deletes the room of that name; a room with members stays, with an
    /// error naming how many it still has.
    pub fn handle_delete_room(state: &mut ServerState, room_name: &[u8]) -> (r: TcpCommand)
        requires
            old(state).spec_wf(),
        ensures
            final(state).spec_wf(),
            final(state).users == old(state).users,
            spec_delete_done(*old(state), *final(state), room_name@, r@),
    {
        if is_blank(room_name) {
            return error_response(msg_room_name_empty());
        }
        match state.find_room_by_name(room_name) {
            None => error_response(msg_room_missing(room_name)),
            Some(k) => {
                let members = state.rooms[k].users.len();
                if members > 0 {
                    error_response(msg_room_occupied(room_name, members as u64))
                } else {
                    state.remove_room_at(k);
                    TcpCommand::Simple(TcpCommandId::DeleteRoomSuccess)
                }
            },
        }
    }

    /// Enrolls the user in the named room under two freshly drawn stream
    /// identifiers, answers with the room and stream identifiers followed
    /// by one frame per pre-existing stream, and notifies every
    /// pre-existing member of both new streams. An unknown name gets an
    /// error, and so does a user with an open session or already listed
    /// in any room: refusing the second join, rather than enrolling
    /// twice, is what keeps each user in the member lists at most once
    /// and each session's streams in exactly one room.
    pub fn handle_join_room(
        state: &mut ServerState,
        username: &[u8],
        session: &mut Option<(Vec<u8>, Vec<u8>)>,
        room_name: &[u8],
        vsid: Vec<u8>,
        asid: Vec<u8>,
    ) -> (r: DispatchOutcome)
        requires
            old(state).spec_wf(),
            spec_contains_bytes(old(state).users@, username@),
            vsid@.len() == crate::ID_LEN,
            asid@.len() == crate::ID_LEN,
            !old(state).spec_has_sid(vsid@),
            !old(state).spec_has_sid(asid@),
            vsid@ != asid@,
        ensures
            final(state).spec_wf(),
            final(state).users == old(state).users,
            spec_blank(room_name@) ==> *final(state) == *old(state) && *final(session) == *old(session) && r.notices@.len() == 0 && r.replies@.len() == 1 && r.replies@[0]@
                == TcpCommandV::Text(TcpCommandId::ErrorResponse, spec_msg_room_name_empty()),
            !spec_blank(room_name@) && (*old(session) is Some || old(state).spec_user_in_some_room(
                username@,
            )) ==> *final(state) == *old(state) && *final(session) == *old(session)
                && r.notices@.len() == 0 && r.replies@.len() == 1 && r.replies@[0]@
                == TcpCommandV::Text(TcpCommandId::ErrorResponse, spec_msg_already_in_room()),
            !spec_blank(room_name@) && *old(session) is None && !old(state).spec_user_in_some_room(
                username@,
            ) && !old(state).spec_has_room_name(room_name@) ==> *final(state) == *old(state)
                && *final(session) == *old(session) && r.notices@.len() == 0 && r.replies@.len() == 1
                && r.replies@[0]@ == TcpCommandV::Text(
                TcpCommandId::ErrorResponse,
                spec_msg_room_missing(room_name@),
            ),
            !spec_blank(room_name@) && *old(session) is None && !old(state).spec_user_in_some_room(
                username@,
            ) && old(state).spec_has_room_name(room_name@) ==> exists|k: int|
                {
                    &&& 0 <= k < old(state).rooms@.len()
                    &&& #[trigger] old(state).rooms@[k].name@ == room_name@
                    &&& spec_join_done(
                        *old(state),
                        *final(state),
                        k,
                        username@,
                        vsid@,
                        asid@,
                        *final(session),
                        r,
                    )
                },
    {
        if is_blank(room_name) {
            return error_outcome(msg_room_name_empty());
        }
        let in_room = match session {
            Some(_) => true,
            None => state.user_in_any_room(username),
        };
        if in_room {
            return error_outcome(msg_already_in_room());
        }
        let k = match state.find_room_by_name(room_name) {
            None => {
                return error_outcome(msg_room_missing(room_name));
            },
            Some(k) => k,
        };
        Self::join_found_room(state, username, session, k, vsid, asid)
    }
}

/// The whole effect of a room creation attempt: on a usable, unused name
/// the room is appended under the drawn identifier; each rejection leaves
/// the registries as they were and names its reason.
pub open spec fn spec_create_done(
    prev: ServerState,
    post: ServerState,
    name: Seq<u8>,
    rid: Seq<u8>,
    reply: TcpCommandV,
) -> bool {
    &&& (spec_blank(name) ==> post == prev && reply == TcpCommandV::Text(
        TcpCommandId::ErrorResponse,
        spec_msg_room_name_empty(),
    ))
    &&& (!spec_blank(name) && name.len() > MAX_NAME_LENGTH ==> post == prev && reply
        == TcpCommandV::Text(TcpCommandId::ErrorResponse, spec_msg_room_name_too_long()))
    &&& (!spec_blank(name) && name.len() <= MAX_NAME_LENGTH && !all_name_bytes(name) ==> post
        == prev && reply == TcpCommandV::Text(
        TcpCommandId::ErrorResponse,
        spec_msg_room_name_bad_chars(),
    ))
    &&& (!spec_blank(name) && spec_valid_name(name) && prev.spec_has_room_name(name) ==> post
        == prev && reply == TcpCommandV::Text(
        TcpCommandId::ErrorResponse,
        spec_msg_room_exists(name),
    ))
    &&& (!spec_blank(name) && spec_valid_name(name) && !prev.spec_has_room_name(name) ==> {
        &&& reply == TcpCommandV::Simple(TcpCommandId::CreateRoomSuccess)
        &&& post.rooms@.len() == prev.rooms@.len() + 1
        &&& (forall|k: int|
            0 <= k < prev.rooms@.len() ==> #[trigger] post.rooms@[k] == prev.rooms@[k])
        &&& post.rooms@.last().id@ == rid
        &&& post.rooms@.last().name@ == name
        &&& post.rooms@.last().users@.len() == 0
        &&& post.rooms@.last().video_streams@.len() == 0
        &&& post.rooms@.last().audio_streams@.len() == 0
    })
}

/// The whole effect of a room deletion attempt: an empty room of that
/// name goes away; a missing name or a room still holding members leaves
/// the registries as they were, with the reason (and the member count) in
/// the reply.
pub open spec fn spec_delete_done(
    prev: ServerState,
    post: ServerState,
    name: Seq<u8>,
    reply: TcpCommandV,
) -> bool {
    &&& (spec_blank(name) ==> post == prev && reply == TcpCommandV::Text(
        TcpCommandId::ErrorResponse,
        spec_msg_room_name_empty(),
    ))
    &&& (!spec_blank(name) && !prev.spec_has_room_name(name) ==> post == prev && reply
        == TcpCommandV::Text(TcpCommandId::ErrorResponse, spec_msg_room_missing(name)))
    &&& (!spec_blank(name) && prev.spec_has_room_name(name) ==> exists|k: int|
        0 <= k < prev.rooms@.len() && #[trigger] prev.rooms@[k].name@ == name && (if prev.rooms@[
            k
        ].users@.len() > 0 {
            post == prev && reply == TcpCommandV::Text(
                TcpCommandId::ErrorResponse,
                spec_msg_room_occupied(name, prev.rooms@[k].users@.len()),
            )
        } else {
            post.rooms@ == prev.rooms@.remove(k) && reply == TcpCommandV::Simple(
                TcpCommandId::DeleteRoomSuccess,
            )
        }))
}

/// The whole effect of a successful join of room `k`: the state change,
/// the session, the reply frames and the notifications.
pub open spec fn spec_join_done(
    prev: ServerState,
    post: ServerState,
    k: int,
    username: Seq<u8>,
    vsid: Seq<u8>,
    asid: Seq<u8>,
    session: Option<(Vec<u8>, Vec<u8>)>,
    r: DispatchOutcome,
) -> bool {
    let pr = prev.rooms@[k];
    let nr = post.rooms@[k];
    let vn = pr.video_streams@.len() as int;
    let an = pr.audio_streams@.len() as int;
    &&& post.rooms@.len() == prev.rooms@.len()
    &&& (forall|j: int|
        0 <= j < prev.rooms@.len() && j != k ==> #[trigger] post.rooms@[j] == prev.rooms@[j])
    &&& nr.id == pr.id
    &&& nr.name == pr.name
    &&& nr.users@.len() == pr.users@.len() + 1
    &&& nr.users@.last()@ == username
    &&& (forall|m: int| 0 <= m < pr.users@.len() ==> nr.users@[m] == pr.users@[m])
    &&& nr.video_streams@.len() == vn + 1
    &&& nr.video_streams@.last().sid@ == vsid
    &&& nr.video_streams@.last().addr is None
    &&& nr.audio_streams@.len() == an + 1
    &&& nr.audio_streams@.last().sid@ == asid
    &&& nr.audio_streams@.last().addr is None
    &&& (session matches Some(sv) && sv.0@ == vsid && sv.1@ == asid)
    &&& r.replies@.len() == 1 + vn + an
    &&& r.replies@[0]@ == TcpCommandV::Bytes(
        TcpCommandId::JoinRoomSuccess,
        pr.id@ + vsid + pr.id@ + asid,
    )
    &&& (forall|i: int|
        0 <= i < vn ==> (#[trigger] r.replies@[1 + i])@ == TcpCommandV::Bytes(
            TcpCommandId::OtherUserJoinedRoom,
            pr.video_streams@[i].sid@,
        ))
    &&& (forall|i: int|
        0 <= i < an ==> (#[trigger] r.replies@[1 + vn + i])@ == TcpCommandV::Bytes(
            TcpCommandId::OtherUserJoinedRoom,
            pr.audio_streams@[i].sid@,
        ))
    &&& spec_join_notices(
        Seq::new(pr.users@.len(), |m: int| pr.users@[m]@),
        vsid,
        asid,
        r.notices@,
    )
}

impl TcpCommandHandler {
    /// The successful arm of a join, once the room is found and the user
    /// is known to be roomless.
    fn join_found_room(
        state: &mut ServerState,
        username: &[u8],
        session: &mut Option<(Vec<u8>, Vec<u8>)>,
        k: usize,
        vsid: Vec<u8>,
        asid: Vec<u8>,
    ) -> (r: DispatchOutcome)
        requires
            old(state).spec_wf(),
            spec_contains_bytes(old(state).users@, username@),
            !old(state).spec_user_in_some_room(username@),
            k < old(state).rooms@.len(),
            vsid@.len() == crate::ID_LEN,
            asid@.len() == crate::ID_LEN,
            !old(state).spec_has_sid(vsid@),
            !old(state).spec_has_sid(asid@),
            vsid@ != asid@,
        ensures
            final(state).spec_wf(),
            final(state).users == old(state).users,
            spec_join_done(
                *old(state),
                *final(state),
                k as int,
                username@,
                vsid@,
                asid@,
                *final(session),
                r,
            ),
    {
        let other_users = clone_names(&state.rooms[k].users);
        let old_vsids = table_sids(&state.rooms[k].video_streams);
        let old_asids = table_sids(&state.rooms[k].audio_streams);
        let rid_copy = slice_to_vec(state.rooms[k].id.as_slice());
        let vsid_copy = slice_to_vec(vsid.as_slice());
        let asid_copy = slice_to_vec(asid.as_slice());
        let vsid_session = slice_to_vec(vsid.as_slice());
        let asid_session = slice_to_vec(asid.as_slice());
        let name_copy = slice_to_vec(username);
        state.join_room_at(k, name_copy, vsid, asid);
        let mut payload: Vec<u8> = Vec::new();
        push_bytes(&mut payload, rid_copy.as_slice());
        push_bytes(&mut payload, vsid_copy.as_slice());
        push_bytes(&mut payload, rid_copy.as_slice());
        push_bytes(&mut payload, asid_copy.as_slice());
        let ghost payload_v = payload@;
        let mut replies: Vec<TcpCommand> = Vec::new();
        replies.push(TcpCommand::Bytes(TcpCommandId::JoinRoomSuccess, payload));
        let mut i: usize = 0;
        while i < old_vsids.len()
            invariant
                0 <= i <= old_vsids@.len(),
                replies@.len() == 1 + i,
                replies@[0]@ == TcpCommandV::Bytes(TcpCommandId::JoinRoomSuccess, payload_v),
                forall|j: int|
                    0 <= j < i ==> (#[trigger] replies@[1 + j])@ == TcpCommandV::Bytes(
                        TcpCommandId::OtherUserJoinedRoom,
                        old_vsids@[j]@,
                    ),
            decreases old_vsids@.len() - i,
        {
            replies.push(
                TcpCommand::Bytes(
                    TcpCommandId::OtherUserJoinedRoom,
                    slice_to_vec(old_vsids[i].as_slice()),
                ),
            );
            i = i + 1;
        }
        let ghost vn = old_vsids@.len() as int;
        let mut i2: usize = 0;
        while i2 < old_asids.len()
            invariant
                0 <= i2 <= old_asids@.len(),
                replies@.len() == 1 + vn + i2,
                vn == old_vsids@.len(),
                replies@[0]@ == TcpCommandV::Bytes(TcpCommandId::JoinRoomSuccess, payload_v),
                forall|j: int|
                    0 <= j < vn ==> (#[trigger] replies@[1 + j])@ == TcpCommandV::Bytes(
                        TcpCommandId::OtherUserJoinedRoom,
                        old_vsids@[j]@,
                    ),
                forall|j: int|
                    0 <= j < i2 ==> (#[trigger] replies@[1 + vn + j])@ == TcpCommandV::Bytes(
                        TcpCommandId::OtherUserJoinedRoom,
                        old_asids@[j]@,
                    ),
            decreases old_asids@.len() - i2,
        {
            replies.push(
                TcpCommand::Bytes(
                    TcpCommandId::OtherUserJoinedRoom,
                    slice_to_vec(old_asids[i2].as_slice()),
                ),
            );
            i2 = i2 + 1;
        }
        let mut notices: Vec<(Vec<u8>, TcpCommand)> = Vec::new();
        push_member_notices(
            &mut notices,
            &other_users,
            TcpCommandId::OtherUserJoinedRoom,
            vsid_copy.as_slice(),
            asid_copy.as_slice(),
        );
        *session = Some((vsid_session, asid_session));
        proof {
            let pr = old(state).rooms@[k as int];
            assert(payload@ =~= pr.id@ + vsid@ + pr.id@ + asid@);
            let members = Seq::new(pr.users@.len(), |m: int| pr.users@[m]@);
            assert(notices@.len() == 2 * members.len());
            assert forall|m: int|
                0 <= m < members.len() implies (#[trigger] notices@[2 * m]).0@ == members[m]
                && notices@[2 * m].1@ == TcpCommandV::Bytes(
                TcpCommandId::OtherUserJoinedRoom,
                vsid@,
            ) by {
                assert(notices@[2 * m].0@ == other_users@[m]@);
                assert(other_users@[m]@ == pr.users@[m]@);
                assert(notices@[2 * m].1@ == TcpCommandV::Bytes(
                    TcpCommandId::OtherUserJoinedRoom,
                    vsid_copy@,
                ));
            }
            assert forall|m: int|
                0 <= m < members.len() implies (#[trigger] notices@[2 * m + 1]).0@ == members[m]
                && notices@[2 * m + 1].1@ == TcpCommandV::Bytes(
                TcpCommandId::OtherUserJoinedRoom,
                asid@,
            ) by {
                assert(notices@[2 * m + 1].0@ == other_users@[m]@);
                assert(other_users@[m]@ == pr.users@[m]@);
                assert(notices@[2 * m + 1].1@ == TcpCommandV::Bytes(
                    TcpCommandId::OtherUserJoinedRoom,
                    asid_copy@,
                ));
            }
        }
        DispatchOutcome { replies, notices }
    }

    /// Takes the user's session out of its room, clears the session and
    /// notifies the remaining members of both departing streams. Without
    /// a session the command is an internal error, not a reply.
    pub fn handle_leave_room(
        state: &mut ServerState,
        username: &[u8],
        session: &mut Option<(Vec<u8>, Vec<u8>)>,
    ) -> (r: Result<DispatchOutcome, ()>)
        requires
            old(state).spec_wf(),
            *old(session) matches Some(s) ==> !old(state).spec_sid_in_audio(s.0@) && !old(
                state,
            ).spec_sid_in_video(s.1@),
        ensures
            final(state).spec_wf(),
            final(state).users == old(state).users,
            *old(session) is None ==> r is Err && *final(state) == *old(state) && *final(session) == *old(session),
            *old(session) matches Some(s) ==> (r matches Ok(out) && *final(session) is None
                && spec_leave_done(*old(state), *final(state), username@, s.0@, s.1@, out)),
    {
        let (vsid, asid) = match &*session {
            None => {
                return Err(());
            },
            Some((v, a)) => (slice_to_vec(v.as_slice()), slice_to_vec(a.as_slice())),
        };
        *session = None;
        let report = state.purge_session(username, vsid.as_slice(), asid.as_slice());
        let mut notices: Vec<(Vec<u8>, TcpCommand)> = Vec::new();
        match report {
            Some((room_idx, members)) => {
                push_member_notices(
                    &mut notices,
                    &members,
                    TcpCommandId::OtherUserLeftRoom,
                    vsid.as_slice(),
                    asid.as_slice(),
                );
                proof {
                    let rr = room_idx as int;
                    assert(old(state).rooms@[rr].spec_has_stream(vsid@));
                    assert(old(state).spec_has_sid(vsid@));
                    let post_members = Seq::new(
                        state.rooms@[rr].users@.len(),
                        |m: int| state.rooms@[rr].users@[m]@,
                    );
                    assert(notices@.len() == 2 * post_members.len());
                    assert forall|m: int|
                        0 <= m < post_members.len() implies (#[trigger] notices@[2 * m]).0@
                        == post_members[m] && notices@[2 * m].1@ == TcpCommandV::Bytes(
                        TcpCommandId::OtherUserLeftRoom,
                        vsid@,
                    ) by {
                        assert(notices@[2 * m].0@ == members@[m]@);
                        assert(members@[m]@ == state.rooms@[rr].users@[m]@);
                    }
                    assert forall|m: int|
                        0 <= m < post_members.len() implies (#[trigger] notices@[2 * m + 1]).0@
                        == post_members[m] && notices@[2 * m + 1].1@ == TcpCommandV::Bytes(
                        TcpCommandId::OtherUserLeftRoom,
                        asid@,
                    ) by {
                        assert(notices@[2 * m + 1].0@ == members@[m]@);
                        assert(members@[m]@ == state.rooms@[rr].users@[m]@);
                    }
                    assert(spec_left_notices(post_members, vsid@, asid@, notices@));
                }
            },
            None => {},
        }
        Ok(DispatchOutcome { replies: Vec::new(), notices })
    }
}

/// The whole effect of leaving or disconnecting: the username and the two
/// session streams are purged from every room, and the remaining members
/// of the room that carried the video stream are told of both departures.
pub open spec fn spec_purged_and_notified(
    prev: ServerState,
    post: ServerState,
    username: Seq<u8>,
    vsid: Seq<u8>,
    asid: Seq<u8>,
    notices: Seq<(Vec<u8>, TcpCommand)>,
) -> bool {
    &&& !post.spec_user_in_some_room(username)
    &&& !post.spec_has_sid(vsid)
    &&& !post.spec_has_sid(asid)
    &&& post.rooms@.len() == prev.rooms@.len()
    &&& (forall|k: int|
        0 <= k < prev.rooms@.len() ==> crate::server_state::spec_room_purged(
            #[trigger] prev.rooms@[k],
            post.rooms@[k],
            username,
            vsid,
            asid,
        ))
    &&& (prev.spec_has_sid(vsid) ==> exists|rr: int|
        {
            &&& 0 <= rr < prev.rooms@.len()
            &&& crate::room::spec_table_has(#[trigger] prev.rooms@[rr].video_streams@, vsid)
            &&& spec_left_notices(
                Seq::new(post.rooms@[rr].users@.len(), |m: int| post.rooms@[rr].users@[m]@),
                vsid,
                asid,
                notices,
            )
        })
    &&& (!prev.spec_has_sid(vsid) ==> notices.len() == 0)
}

/// As [`spec_purged_and_notified`], with no reply frame on the leaver's
/// own connection.
pub open spec fn spec_leave_done(
    prev: ServerState,
    post: ServerState,
    username: Seq<u8>,
    vsid: Seq<u8>,
    asid: Seq<u8>,
    out: DispatchOutcome,
) -> bool {
    &&& out.replies@.len() == 0
    &&& spec_purged_and_notified(prev, post, username, vsid, asid, out.notices@)
}

/// The stream identifiers of a table, in table order.
fn table_sids(t: &Vec<crate::room::StreamEntry>) -> (r: Vec<Vec<u8>>)
    ensures
        r@.len() == t@.len(),
        forall|i: int| 0 <= i < t@.len() ==> #[trigger] r@[i]@ == t@[i].sid@,
{
    let mut out: Vec<Vec<u8>> = Vec::new();
    let mut i: usize = 0;
    while i < t.len()
        invariant
            0 <= i <= t@.len(),
            out@.len() == i,
            forall|j: int| 0 <= j < i ==> #[trigger] out@[j]@ == t@[j].sid@,
        decreases t@.len() - i,
    {
        out.push(slice_to_vec(t[i].sid.as_slice()));
        i = i + 1;
    }
    out
}


/// Why a command could not be answered on this connection.
#[derive(Debug, Clone, Copy, PartialEq, Eq, Structural)]
pub enum DispatchError {
    /// `LeaveRoom` arrived without a current session; the connection is
    /// in an inconsistent state and is closed.
    NoSession,
    /// Every drawn identifier collided; nothing was changed.
    IdExhausted,
}

impl TcpHandler {
    /// Connection teardown: unregisters the username and clears its
    /// session, if any, out of every room, notifying the remaining
    /// members of the departed streams.
    pub fn teardown(
        state: &mut ServerState,
        username: &[u8],
        session: &Option<(Vec<u8>, Vec<u8>)>,
    ) -> (notices: Vec<(Vec<u8>, TcpCommand)>)
        requires
            old(state).spec_wf(),
            session matches Some(s) ==> !old(state).spec_sid_in_audio(s.0@) && !old(
                state,
            ).spec_sid_in_video(s.1@),
        ensures
            final(state).spec_wf(),
            !spec_contains_bytes(final(state).users@, username@),
            !final(state).spec_user_in_some_room(username@),
            forall|x: Seq<u8>|
                x != username@ ==> #[trigger] spec_contains_bytes(final(state).users@, x)
                    == spec_contains_bytes(old(state).users@, x),
            final(state).rooms@.len() == old(state).rooms@.len(),
            session matches Some(s) ==> spec_purged_and_notified(
                *old(state),
                *final(state),
                username@,
                s.0@,
                s.1@,
                notices@,
            ),
    {
        let mut sess_copy: Option<(Vec<u8>, Vec<u8>)> = match session {
            Some((v, a)) => Some((slice_to_vec(v.as_slice()), slice_to_vec(a.as_slice()))),
            None => None,
        };
        let notices = match TcpCommandHandler::handle_leave_room(state, username, &mut sess_copy) {
            Ok(out) => out.notices,
            Err(_) => {
                // No session: still scrub the username from every member
                // list. An identifier of length zero matches no table
                // entry, every stored identifier being four bytes long.
                let empty_sid: Vec<u8> = Vec::new();
                proof {
                    assert(!state.spec_sid_in_audio(empty_sid@)) by {
                        assert forall|r: int|
                            0 <= r < state.rooms@.len() implies !crate::room::spec_table_has(
                            #[trigger] state.rooms@[r].audio_streams@,
                            empty_sid@,
                        ) by {
                            assert(state.rooms@[r].spec_wf());
                            assert forall|i: int|
                                0 <= i < state.rooms@[r].audio_streams@.len() implies #[trigger] state.rooms@[r].audio_streams@[i].sid@
                                != empty_sid@ by {
                                assert(state.rooms@[r].audio_streams@[i].sid@.len()
                                    == crate::ID_LEN);
                            }
                        }
                    }
                    assert(!state.spec_sid_in_video(empty_sid@)) by {
                        assert forall|r: int|
                            0 <= r < state.rooms@.len() implies !crate::room::spec_table_has(
                            #[trigger] state.rooms@[r].video_streams@,
                            empty_sid@,
                        ) by {
                            assert(state.rooms@[r].spec_wf());
                            assert forall|i: int|
                                0 <= i < state.rooms@[r].video_streams@.len() implies #[trigger] state.rooms@[r].video_streams@[i].sid@
                                != empty_sid@ by {
                                assert(state.rooms@[r].video_streams@[i].sid@.len()
                                    == crate::ID_LEN);
                            }
                        }
                    }
                }
                let _ = state.purge_session(username, empty_sid.as_slice(), empty_sid.as_slice());
                Vec::new()
            },
        };
        state.remove_user(username);
        notices
    }
}

impl TcpCommandHandler {
    /// An outcome of exactly one reply and no notifications.
    fn single_reply(cmd: TcpCommand) -> (r: DispatchOutcome)
        ensures
            r.replies@.len() == 1,
            r.replies@[0] == cmd,
            r.notices@.len() == 0,
    {
        let mut replies: Vec<TcpCommand> = Vec::new();
        replies.push(cmd);
        DispatchOutcome { replies, notices: Vec::new() }
    }

    /// Executes one decoded command for the named connected user:
    /// answers the list queries, creates, deletes, joins and leaves
    /// rooms, and refuses everything else with an error reply.
    pub fn handle_command(
        state: &mut ServerState,
        username: &[u8],
        session: &mut Option<(Vec<u8>, Vec<u8>)>,
        cmd: &TcpCommand,
    ) -> (r: Result<DispatchOutcome, DispatchError>)
        requires
            old(state).spec_wf(),
            spec_contains_bytes(old(state).users@, username@),
            *old(session) matches Some(s) ==> !old(state).spec_sid_in_audio(s.0@) && !old(
                state,
            ).spec_sid_in_video(s.1@),
        ensures
            final(state).spec_wf(),
            final(state).users == old(state).users,
            r is Err ==> *final(state) == *old(state) && *final(session) == *old(session),
            match cmd@ {
                TcpCommandV::Simple(id) => if id == TcpCommandId::GetUserList {
                    r matches Ok(out) && *final(state) == *old(state) && *final(session) == *old(session) && out.notices@.len() == 0 && out.replies@.len() == 1 && out.replies@[0]@
                        == TcpCommandV::TextList(
                        TcpCommandId::UserList,
                        old(state).users.deep_view(),
                    )
                } else if id == TcpCommandId::GetRoomList {
                    r matches Ok(out) && *final(state) == *old(state) && *final(session) == *old(session) && out.notices@.len() == 0 && out.replies@.len() == 1 && out.replies@[0]@
                        == TcpCommandV::TextList(
                        TcpCommandId::RoomList,
                        Seq::new(old(state).rooms@.len(), |i: int| old(state).rooms@[i].name@),
                    )
                } else if id == TcpCommandId::LeaveRoom {
                    if *old(session) is None {
                        r matches Err(e) && e == DispatchError::NoSession
                    } else {
                        *old(session) matches Some(s) && (r matches Ok(out) && *final(session)
                            is None && spec_leave_done(
                            *old(state),
                            *final(state),
                            username@,
                            s.0@,
                            s.1@,
                            out,
                        ))
                    }
                } else {
                    r matches Ok(out) && *final(state) == *old(state) && *final(session) == *old(session) && out.notices@.len() == 0 && out.replies@.len() == 1 && out.replies@[0]@
                        == TcpCommandV::Text(TcpCommandId::ErrorResponse, spec_msg_unsupported(spec_id_byte(spec_cmd_id(cmd@))))
                },
                TcpCommandV::Text(id, name) => if id == TcpCommandId::CreateRoom {
                    *final(session) == *old(session) && match r {
                        Ok(out) => out.notices@.len() == 0 && out.replies@.len() == 1
                            && exists|rid: Seq<u8>|
                            rid.len() == crate::ID_LEN && !old(state).spec_has_room_id(rid)
                                && #[trigger] spec_create_done(
                                *old(state),
                                *final(state),
                                name,
                                rid,
                                out.replies@[0]@,
                            ),
                        Err(e) => e == DispatchError::IdExhausted,
                    }
                } else if id == TcpCommandId::DeleteRoom {
                    *final(session) == *old(session) && (r matches Ok(out) && out.notices@.len()
                        == 0 && out.replies@.len() == 1 && spec_delete_done(
                        *old(state),
                        *final(state),
                        name,
                        out.replies@[0]@,
                    ))
                } else if id == TcpCommandId::JoinRoom {
                    match r {
                        Ok(out) => {
                            &&& (spec_blank(name) ==> *final(state) == *old(state) && *final(session) == *old(session) && out.notices@.len() == 0 && out.replies@.len()
                                == 1 && out.replies@[0]@ == TcpCommandV::Text(
                                TcpCommandId::ErrorResponse,
                                spec_msg_room_name_empty(),
                            ))
                            &&& (!spec_blank(name) && (*old(session) is Some || old(
                                state,
                            ).spec_user_in_some_room(username@)) ==> *final(state) == *old(state)
                                && *final(session) == *old(session) && out.notices@.len() == 0
                                && out.replies@.len() == 1 && out.replies@[0]@
                                == TcpCommandV::Text(
                                TcpCommandId::ErrorResponse,
                                spec_msg_already_in_room(),
                            ))
                            &&& (!spec_blank(name) && *old(session) is None && !old(
                                state,
                            ).spec_user_in_some_room(username@) && !old(state).spec_has_room_name(
                                name,
                            ) ==> *final(state) == *old(state) && *final(session) == *old(session)
                                && out.notices@.len() == 0 && out.replies@.len() == 1
                                && out.replies@[0]@ == TcpCommandV::Text(
                                TcpCommandId::ErrorResponse,
                                spec_msg_room_missing(name),
                            ))
                            &&& (!spec_blank(name) && *old(session) is None && !old(
                                state,
                            ).spec_user_in_some_room(username@) && old(state).spec_has_room_name(
                                name,
                            ) ==> exists|k: int, vsid: Seq<u8>, asid: Seq<u8>|
                                {
                                    &&& 0 <= k < old(state).rooms@.len()
                                    &&& old(state).rooms@[k].name@ == name
                                    &&& vsid.len() == crate::ID_LEN
                                    &&& asid.len() == crate::ID_LEN
                                    &&& !old(state).spec_has_sid(vsid)
                                    &&& !old(state).spec_has_sid(asid)
                                    &&& vsid != asid
                                    &&& #[trigger] spec_join_done(
                                        *old(state),
                                        *final(state),
                                        k,
                                        username@,
                                        vsid,
                                        asid,
                                        *final(session),
                                        out,
                                    )
                                })
                        },
                        Err(e) => e == DispatchError::IdExhausted,
                    }
                } else {
                    r matches Ok(out) && *final(state) == *old(state) && *final(session) == *old(session) && out.notices@.len() == 0 && out.replies@.len() == 1 && out.replies@[0]@
                        == TcpCommandV::Text(TcpCommandId::ErrorResponse, spec_msg_unsupported(spec_id_byte(spec_cmd_id(cmd@))))
                },
                _ => r matches Ok(out) && *final(state) == *old(state) && *final(session) == *old(session) && out.notices@.len() == 0 && out.replies@.len() == 1 && out.replies@[0]@
                    == TcpCommandV::Text(TcpCommandId::ErrorResponse, spec_msg_unsupported(spec_id_byte(spec_cmd_id(cmd@)))),
            },
    {
        match cmd {
            TcpCommand::Simple(TcpCommandId::GetUserList) => {
                Ok(Self::single_reply(Self::handle_get_user_list(state)))
            },
            TcpCommand::Simple(TcpCommandId::GetRoomList) => {
                Ok(Self::single_reply(Self::handle_get_room_list(state)))
            },
            TcpCommand::Simple(TcpCommandId::LeaveRoom) => {
                match Self::handle_leave_room(state, username, session) {
                    Ok(out) => Ok(out),
                    Err(_) => Err(DispatchError::NoSession),
                }
            },
            TcpCommand::Text(TcpCommandId::CreateRoom, name) => {
                match crate::server_state::fresh_room_id(state) {
                    None => Err(DispatchError::IdExhausted),
                    Some(rid) => {
                        let ghost ridv = rid@;
                        let reply = Self::handle_create_room(state, name.as_slice(), rid);
                        proof {
                            assert(spec_create_done(
                                *old(state),
                                *state,
                                name@,
                                ridv,
                                reply@,
                            ));
                        }
                        Ok(Self::single_reply(reply))
                    },
                }
            },
            TcpCommand::Text(TcpCommandId::DeleteRoom, name) => {
                Ok(Self::single_reply(Self::handle_delete_room(state, name.as_slice())))
            },
            TcpCommand::Text(TcpCommandId::JoinRoom, name) => {
                let vsid = match crate::server_state::fresh_stream_id(state, None) {
                    None => {
                        return Err(DispatchError::IdExhausted);
                    },
                    Some(v) => v,
                };
                let asid = match crate::server_state::fresh_stream_id(state, Some(&vsid)) {
                    None => {
                        return Err(DispatchError::IdExhausted);
                    },
                    Some(a) => a,
                };
                let ghost vsidv = vsid@;
                let ghost asidv = asid@;
                let out = Self::handle_join_room(
                    state,
                    username,
                    session,
                    name.as_slice(),
                    vsid,
                    asid,
                );
                proof {
                    if !spec_blank(name@) && *old(session) is None && !old(
                        state,
                    ).spec_user_in_some_room(username@) && old(state).spec_has_room_name(name@) {
                        let k = choose|k: int|
                            0 <= k < old(state).rooms@.len() && #[trigger] old(
                                state,
                            ).rooms@[k].name@ == name@ && spec_join_done(
                                *old(state),
                                *state,
                                k,
                                username@,
                                vsidv,
                                asidv,
                                *session,
                                out,
                            );
                        assert(spec_join_done(
                            *old(state),
                            *state,
                            k,
                            username@,
                            vsidv,
                            asidv,
                            *session,
                            out,
                        ));
                    }
                }
                Ok(out)
            },
            _ => Ok(error_outcome(msg_unsupported(cmd.tag_byte()))),
        }
    }
}

} // verus!
