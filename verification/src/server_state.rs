//! The server's registries: connected users and rooms.
//!
//! Every mutation in the command dispatcher and in connection teardown
//! preserves [`ServerState::spec_wf`], which carries the registry
//! invariants: every room member is a registered user, and every stream
//! identifier lives in exactly one table of exactly one room.

use vstd::prelude::*;

use crate::byteops::{bytes_eq, find_bytes};
use crate::room::{
    spec_contains_bytes, spec_names_unique, spec_table_has, Room, StreamEntry,
};
use crate::ID_LEN;

verus! {

/// The process-wide registries: connected usernames (in connection order)
/// and the rooms.
pub struct ServerState {
    pub users: Vec<Vec<u8>>,
    pub rooms: Vec<Room>,
}

impl ServerState {
    /// Some room carries this identifier on the datagram channel.
    pub open spec fn spec_has_room_id(self, id: Seq<u8>) -> bool {
        exists|r: int| 0 <= r < self.rooms@.len() && #[trigger] self.rooms@[r].id@ == id
    }

    /// Some room bears this name.
    pub open spec fn spec_has_room_name(self, name: Seq<u8>) -> bool {
        exists|r: int| 0 <= r < self.rooms@.len() && #[trigger] self.rooms@[r].name@ == name
    }

    /// Some room's stream table holds this identifier.
    pub open spec fn spec_has_sid(self, sid: Seq<u8>) -> bool {
        exists|r: int| 0 <= r < self.rooms@.len() && #[trigger] self.rooms@[r].spec_has_stream(sid)
    }

    /// The username is in some room's member list.
    pub open spec fn spec_user_in_some_room(self, name: Seq<u8>) -> bool {
        exists|r: int| 0 <= r < self.rooms@.len() && #[trigger] self.rooms@[r].spec_has_user(name)
    }

    /// Every member of every room is a registered user.
    pub open spec fn spec_members_registered(self) -> bool {
        forall|r: int, m: int|
            0 <= r < self.rooms@.len() && 0 <= m < self.rooms@[r].users@.len()
                ==> spec_contains_bytes(self.users@, #[trigger] self.rooms@[r].users@[m]@)
    }

    /// Every stream identifier lives in exactly one slot: two video slots
    /// with the same identifier coincide, two audio slots likewise, and no
    /// identifier is both video and audio.
    pub open spec fn spec_streams_exclusive(self) -> bool {
        let rooms = self.rooms@;
        &&& forall|r1: int, i1: int, r2: int, i2: int|
            0 <= r1 < rooms.len() && 0 <= i1 < rooms[r1].video_streams@.len() && 0 <= r2
                < rooms.len() && 0 <= i2 < rooms[r2].video_streams@.len()
                && #[trigger] rooms[r1].video_streams@[i1].sid@
                == #[trigger] rooms[r2].video_streams@[i2].sid@ ==> r1 == r2 && i1 == i2
        &&& forall|r1: int, i1: int, r2: int, i2: int|
            0 <= r1 < rooms.len() && 0 <= i1 < rooms[r1].audio_streams@.len() && 0 <= r2
                < rooms.len() && 0 <= i2 < rooms[r2].audio_streams@.len()
                && #[trigger] rooms[r1].audio_streams@[i1].sid@
                == #[trigger] rooms[r2].audio_streams@[i2].sid@ ==> r1 == r2 && i1 == i2
        &&& forall|r1: int, i1: int, r2: int, i2: int|
            0 <= r1 < rooms.len() && 0 <= i1 < rooms[r1].video_streams@.len() && 0 <= r2
                < rooms.len() && 0 <= i2 < rooms[r2].audio_streams@.len()
                ==> #[trigger] rooms[r1].video_streams@[i1].sid@
                != #[trigger] rooms[r2].audio_streams@[i2].sid@
    }

    /// The registry invariants as a whole.
    pub open spec fn spec_wf(self) -> bool {
        &&& spec_names_unique(self.users@)
        &&& forall|r: int|
            0 <= r < self.rooms@.len() ==> #[trigger] self.rooms@[r].spec_wf()
        &&& forall|r1: int, r2: int|
            0 <= r1 < self.rooms@.len() && 0 <= r2 < self.rooms@.len()
                && #[trigger] self.rooms@[r1].id@ == #[trigger] self.rooms@[r2].id@ ==> r1 == r2
        &&& forall|r1: int, r2: int|
            0 <= r1 < self.rooms@.len() && 0 <= r2 < self.rooms@.len()
                && #[trigger] self.rooms@[r1].name@ == #[trigger] self.rooms@[r2].name@ ==> r1
                == r2
        &&& self.spec_members_registered()
        &&& self.spec_streams_exclusive()
    }

    /// An empty server: nobody connected, no rooms.
    pub fn new() -> (r: ServerState)
        ensures
            r.users@.len() == 0,
            r.rooms@.len() == 0,
            r.spec_wf(),
    {
        ServerState { users: Vec::new(), rooms: Vec::new() }
    }

    /// Whether this username is registered.
    pub fn has_user(&self, name: &[u8]) -> (r: bool)
        ensures
            r == spec_contains_bytes(self.users@, name@),
    {
        match find_bytes(&self.users, name) {
            Some(_) => true,
            None => {
                proof {
                    assert(forall|i: int| 0 <= i < self.users@.len() ==> self.users@[i]@ != name@);
                }
                false
            },
        }
    }

    /// The index of the room bearing this name, if any.
    pub fn find_room_by_name(&self, name: &[u8]) -> (r: Option<usize>)
        ensures
            match r {
                Some(i) => 0 <= i < self.rooms@.len() && self.rooms@[i as int].name@ == name@,
                None => !self.spec_has_room_name(name@),
            },
    {
        let mut i: usize = 0;
        while i < self.rooms.len()
            invariant
                0 <= i <= self.rooms@.len(),
                forall|j: int| 0 <= j < i ==> #[trigger] self.rooms@[j].name@ != name@,
            decreases self.rooms@.len() - i,
        {
            if bytes_eq(self.rooms[i].name.as_slice(), name) {
                return Some(i);
            }
            i = i + 1;
        }
        None
    }

    /// The index of the room carrying this datagram identifier, if any.
    pub fn find_room_by_id(&self, id: &[u8]) -> (r: Option<usize>)
        ensures
            match r {
                Some(i) => 0 <= i < self.rooms@.len() && self.rooms@[i as int].id@ == id@,
                None => !self.spec_has_room_id(id@),
            },
    {
        let mut i: usize = 0;
        while i < self.rooms.len()
            invariant
                0 <= i <= self.rooms@.len(),
                forall|j: int| 0 <= j < i ==> #[trigger] self.rooms@[j].id@ != id@,
            decreases self.rooms@.len() - i,
        {
            if bytes_eq(self.rooms[i].id.as_slice(), id) {
                return Some(i);
            }
            i = i + 1;
        }
        None
    }

    /// Whether any table of any room holds this stream identifier.
    pub fn has_sid(&self, sid: &[u8]) -> (r: bool)
        ensures
            r == self.spec_has_sid(sid@),
    {
        let mut i: usize = 0;
        while i < self.rooms.len()
            invariant
                0 <= i <= self.rooms@.len(),
                forall|j: int| 0 <= j < i ==> !#[trigger] self.rooms@[j].spec_has_stream(sid@),
            decreases self.rooms@.len() - i,
        {
            let room = &self.rooms[i];
            if table_has_sid(&room.video_streams, sid) || table_has_sid(&room.audio_streams, sid) {
                proof {
                    assert(self.rooms@[i as int].spec_has_stream(sid@));
                }
                return true;
            }
            proof {
                assert(!self.rooms@[i as int].spec_has_stream(sid@));
            }
            i = i + 1;
        }
        false
    }

    /// Whether this username is a member of any room.
    pub fn user_in_any_room(&self, name: &[u8]) -> (r: bool)
        ensures
            r == self.spec_user_in_some_room(name@),
    {
        let mut i: usize = 0;
        while i < self.rooms.len()
            invariant
                0 <= i <= self.rooms@.len(),
                forall|j: int| 0 <= j < i ==> !#[trigger] self.rooms@[j].spec_has_user(name@),
            decreases self.rooms@.len() - i,
        {
            match find_bytes(&self.rooms[i].users, name) {
                Some(m) => {
                    proof {
                        assert(self.rooms@[i as int].users@[m as int]@ == name@);
                        assert(self.rooms@[i as int].spec_has_user(name@));
                    }
                    return true;
                },
                None => {
                    proof {
                        assert(!self.rooms@[i as int].spec_has_user(name@)) by {
                            assert(forall|m: int|
                                0 <= m < self.rooms@[i as int].users@.len()
                                    ==> self.rooms@[i as int].users@[m]@ != name@);
                        }
                    }
                },
            }
            i = i + 1;
        }
        false
    }
}

impl ServerState {
    /// Registers a username at the end of the user list.
    pub fn add_user(&mut self, name: Vec<u8>)
        requires
            old(self).spec_wf(),
            crate::room::spec_valid_name(name@),
            !spec_contains_bytes(old(self).users@, name@),
        ensures
            final(self).spec_wf(),
            final(self).users@ == old(self).users@.push(name),
            final(self).rooms == old(self).rooms,
    {
        let ghost pre = *self;
        self.users.push(name);
        proof {
            assert(spec_names_unique(self.users@)) by {
                assert(forall|i: int|
                    0 <= i < pre.users@.len() ==> self.users@[i] == pre.users@[i]);
            }
            assert(self.spec_members_registered()) by {
                assert forall|r: int, m: int|
                    0 <= r < self.rooms@.len() && 0 <= m
                        < self.rooms@[r].users@.len() implies spec_contains_bytes(
                    self.users@,
                    #[trigger] self.rooms@[r].users@[m]@,
                ) by {
                    assert(spec_contains_bytes(pre.users@, self.rooms@[r].users@[m]@));
                    let w = choose|i: int|
                        0 <= i < pre.users@.len() && #[trigger] pre.users@[i]@ == self.rooms@[
                            r
                        ].users@[m]@;
                    assert(self.users@[w]@ == self.rooms@[r].users@[m]@);
                }
            }
        }
    }

    /// Unregisters a username; the rooms are untouched (teardown clears
    /// them separately, before this).
    pub fn remove_user(&mut self, name: &[u8])
        requires
            old(self).spec_wf(),
            !old(self).spec_user_in_some_room(name@),
        ensures
            final(self).spec_wf(),
            !spec_contains_bytes(final(self).users@, name@),
            final(self).rooms == old(self).rooms,
            forall|x: Seq<u8>|
                x != name@ ==> (#[trigger] spec_contains_bytes(final(self).users@, x)
                    == spec_contains_bytes(old(self).users@, x)),
    {
        let ghost pre = *self;
        match find_bytes(&self.users, name) {
            Some(i) => {
                self.users.remove(i);
                proof {
                    let iv = i as int;
                    assert(self.users@ == pre.users@.subrange(0, iv) + pre.users@.subrange(
                        iv + 1,
                        pre.users@.len() as int,
                    ));
                    assert forall|k: int| 0 <= k < self.users@.len() implies #[trigger] self.users@[
                        k
                    ] == (if k < iv {
                        pre.users@[k]
                    } else {
                        pre.users@[k + 1]
                    }) by {}
                    assert(!spec_contains_bytes(self.users@, name@)) by {
                        assert forall|k: int|
                            0 <= k < self.users@.len() implies #[trigger] self.users@[k]@
                            != name@ by {
                            if k < iv {
                                assert(pre.users@[k]@ != name@);
                            } else {
                                assert(pre.users@[k + 1]@ != name@) by {
                                    assert(pre.users@[iv]@ == name@);
                                }
                            }
                        }
                    }
                    assert(spec_names_unique(self.users@));
                    assert(self.spec_members_registered()) by {
                        assert forall|r: int, m: int|
                            0 <= r < self.rooms@.len() && 0 <= m
                                < self.rooms@[r].users@.len() implies spec_contains_bytes(
                            self.users@,
                            #[trigger] self.rooms@[r].users@[m]@,
                        ) by {
                            let u = self.rooms@[r].users@[m]@;
                            assert(spec_contains_bytes(pre.users@, u));
                            let w = choose|k: int|
                                0 <= k < pre.users@.len() && #[trigger] pre.users@[k]@ == u;
                            assert(u != name@) by {
                                assert(self.rooms@[r].spec_has_user(u));
                                assert(!pre.spec_user_in_some_room(name@));
                            }
                            if w < iv {
                                assert(self.users@[w]@ == u);
                            } else {
                                assert(w != iv);
                                assert(self.users@[w - 1]@ == u);
                            }
                        }
                    }
                    assert forall|x: Seq<u8>|
                        x != name@ implies (#[trigger] spec_contains_bytes(self.users@, x)
                        == spec_contains_bytes(pre.users@, x)) by {
                        if spec_contains_bytes(pre.users@, x) {
                            let w = choose|k: int|
                                0 <= k < pre.users@.len() && #[trigger] pre.users@[k]@ == x;
                            assert(w != iv);
                            if w < iv {
                                assert(self.users@[w]@ == x);
                            } else {
                                assert(self.users@[w - 1]@ == x);
                            }
                        }
                        if spec_contains_bytes(self.users@, x) {
                            let w = choose|k: int|
                                0 <= k < self.users@.len() && #[trigger] self.users@[k]@ == x;
                            if w < iv {
                                assert(pre.users@[w]@ == x);
                            } else {
                                assert(pre.users@[w + 1]@ == x);
                            }
                        }
                    }
                }
            },
            None => {},
        }
    }

    /// Creates a room with a fresh identifier and an unused valid name.
    pub fn add_room(&mut self, id: Vec<u8>, name: Vec<u8>)
        requires
            old(self).spec_wf(),
            id@.len() == ID_LEN,
            !old(self).spec_has_room_id(id@),
            crate::room::spec_valid_name(name@),
            !old(self).spec_has_room_name(name@),
        ensures
            final(self).spec_wf(),
            final(self).users == old(self).users,
            final(self).rooms@.len() == old(self).rooms@.len() + 1,
            forall|r: int|
                0 <= r < old(self).rooms@.len() ==> #[trigger] final(self).rooms@[r] == old(
                    self,
                ).rooms@[r],
            final(self).rooms@.last().id@ == id@,
            final(self).rooms@.last().name@ == name@,
            final(self).rooms@.last().users@.len() == 0,
            final(self).rooms@.last().video_streams@.len() == 0,
            final(self).rooms@.last().audio_streams@.len() == 0,
    {
        let ghost pre = *self;
        let room = Room::new(id, name);
        self.rooms.push(room);
        proof {
            let n = pre.rooms@.len() as int;
            assert(forall|r: int| 0 <= r < n ==> #[trigger] self.rooms@[r] == pre.rooms@[r]);
            assert(self.rooms@[n] == room);
            assert(self.spec_wf()) by {
                assert(self.rooms@[n].spec_wf());
                assert forall|r1: int, r2: int|
                    0 <= r1 < self.rooms@.len() && 0 <= r2 < self.rooms@.len()
                        && #[trigger] self.rooms@[r1].id@ == #[trigger] self.rooms@[r2].id@ implies r1
                    == r2 by {
                    if r1 < n && r2 == n {
                        assert(self.rooms@[r1] == pre.rooms@[r1]);
                        assert(pre.rooms@[r1].id@ == id@);
                        assert(pre.spec_has_room_id(id@));
                    } else if r2 < n && r1 == n {
                        assert(self.rooms@[r2] == pre.rooms@[r2]);
                        assert(pre.rooms@[r2].id@ == id@);
                        assert(pre.spec_has_room_id(id@));
                    } else if r1 < n && r2 < n {
                        assert(self.rooms@[r1] == pre.rooms@[r1]);
                        assert(self.rooms@[r2] == pre.rooms@[r2]);
                    }
                }
                assert forall|r1: int, r2: int|
                    0 <= r1 < self.rooms@.len() && 0 <= r2 < self.rooms@.len()
                        && #[trigger] self.rooms@[r1].name@ == #[trigger] self.rooms@[r2].name@ implies r1
                    == r2 by {
                    if r1 < n && r2 == n {
                        assert(self.rooms@[r1] == pre.rooms@[r1]);
                        assert(pre.rooms@[r1].name@ == name@);
                        assert(pre.spec_has_room_name(name@));
                    } else if r2 < n && r1 == n {
                        assert(self.rooms@[r2] == pre.rooms@[r2]);
                        assert(pre.rooms@[r2].name@ == name@);
                        assert(pre.spec_has_room_name(name@));
                    } else if r1 < n && r2 < n {
                        assert(self.rooms@[r1] == pre.rooms@[r1]);
                        assert(self.rooms@[r2] == pre.rooms@[r2]);
                    }
                }
                assert(self.spec_streams_exclusive()) by {
                    assert forall|r1: int, i1: int, r2: int, i2: int|
                        0 <= r1 < self.rooms@.len() && 0 <= i1
                            < self.rooms@[r1].video_streams@.len() && 0 <= r2 < self.rooms@.len()
                            && 0 <= i2 < self.rooms@[r2].video_streams@.len()
                            && #[trigger] self.rooms@[r1].video_streams@[i1].sid@
                            == #[trigger] self.rooms@[r2].video_streams@[i2].sid@ implies r1 == r2
                        && i1 == i2 by {
                        assert(r1 < n && r2 < n);
                        assert(self.rooms@[r1] == pre.rooms@[r1]);
                        assert(self.rooms@[r2] == pre.rooms@[r2]);
                        assert(pre.rooms@[r1].video_streams@[i1].sid@
                            == pre.rooms@[r2].video_streams@[i2].sid@);
                    }
                    assert forall|r1: int, i1: int, r2: int, i2: int|
                        0 <= r1 < self.rooms@.len() && 0 <= i1
                            < self.rooms@[r1].audio_streams@.len() && 0 <= r2 < self.rooms@.len()
                            && 0 <= i2 < self.rooms@[r2].audio_streams@.len()
                            && #[trigger] self.rooms@[r1].audio_streams@[i1].sid@
                            == #[trigger] self.rooms@[r2].audio_streams@[i2].sid@ implies r1 == r2
                        && i1 == i2 by {
                        assert(r1 < n && r2 < n);
                        assert(self.rooms@[r1] == pre.rooms@[r1]);
                        assert(self.rooms@[r2] == pre.rooms@[r2]);
                        assert(pre.rooms@[r1].audio_streams@[i1].sid@
                            == pre.rooms@[r2].audio_streams@[i2].sid@);
                    }
                    assert forall|r1: int, i1: int, r2: int, i2: int|
                        0 <= r1 < self.rooms@.len() && 0 <= i1
                            < self.rooms@[r1].video_streams@.len() && 0 <= r2 < self.rooms@.len()
                            && 0 <= i2
                            < self.rooms@[r2].audio_streams@.len() implies #[trigger] self.rooms@[r1].video_streams@[i1].sid@
                        != #[trigger] self.rooms@[r2].audio_streams@[i2].sid@ by {
                        assert(r1 < n && r2 < n);
                        assert(self.rooms@[r1] == pre.rooms@[r1]);
                        assert(self.rooms@[r2] == pre.rooms@[r2]);
                    }
                }
                assert(self.spec_members_registered()) by {
                    assert forall|r: int, m: int|
                        0 <= r < self.rooms@.len() && 0 <= m
                            < self.rooms@[r].users@.len() implies spec_contains_bytes(
                        self.users@,
                        #[trigger] self.rooms@[r].users@[m]@,
                    ) by {
                        assert(r < n);
                    }
                }
            }
        }
    }
}

/// `post` is `pre` with one occurrence of `x` removed where `pre` held
/// one, and `pre` itself where it held none.
pub open spec fn spec_removed_name(pre: Seq<Vec<u8>>, post: Seq<Vec<u8>>, x: Seq<u8>) -> bool {
    if spec_contains_bytes(pre, x) {
        exists|i: int| 0 <= i < pre.len() && #[trigger] pre[i]@ == x && post == pre.remove(i)
    } else {
        post == pre
    }
}

/// `post` is `pre` with the entry carrying `sid` removed where `pre` held
/// one, and `pre` itself where it held none.
pub open spec fn spec_removed_sid(pre: Seq<StreamEntry>, post: Seq<StreamEntry>, sid: Seq<u8>) -> bool {
    if spec_table_has(pre, sid) {
        exists|i: int| 0 <= i < pre.len() && #[trigger] pre[i].sid@ == sid && post == pre.remove(i)
    } else {
        post == pre
    }
}

/// One room after connection teardown: the departing username and the
/// session's two stream identifiers are gone, everything else is kept.
pub open spec fn spec_room_purged(
    pre: Room,
    post: Room,
    name: Seq<u8>,
    vsid: Seq<u8>,
    asid: Seq<u8>,
) -> bool {
    &&& post.id == pre.id
    &&& post.name == pre.name
    &&& spec_removed_name(pre.users@, post.users@, name)
    &&& spec_removed_sid(pre.video_streams@, post.video_streams@, vsid)
    &&& spec_removed_sid(pre.audio_streams@, post.audio_streams@, asid)
}

impl ServerState {
    /// Deletes the room at index `r`; only an empty room may go.
    pub fn remove_room_at(&mut self, r: usize)
        requires
            old(self).spec_wf(),
            r < old(self).rooms@.len(),
            old(self).rooms@[r as int].users@.len() == 0,
        ensures
            final(self).spec_wf(),
            final(self).users == old(self).users,
            final(self).rooms@ == old(self).rooms@.remove(r as int),
    {
        let ghost pre = *self;
        self.rooms.remove(r);
        proof {
            let rv = r as int;
            assert forall|k: int| 0 <= k < self.rooms@.len() implies #[trigger] self.rooms@[k] == (
            if k < rv {
                pre.rooms@[k]
            } else {
                pre.rooms@[k + 1]
            }) by {}
            assert(self.spec_wf()) by {
                assert forall|r1: int, r2: int|
                    0 <= r1 < self.rooms@.len() && 0 <= r2 < self.rooms@.len()
                        && #[trigger] self.rooms@[r1].id@ == #[trigger] self.rooms@[r2].id@ implies r1
                    == r2 by {
                    let o1: int = if r1 < rv { r1 } else { r1 + 1 };
                    let o2: int = if r2 < rv { r2 } else { r2 + 1 };
                    assert(pre.rooms@[o1].id@ == pre.rooms@[o2].id@);
                }
                assert forall|r1: int, r2: int|
                    0 <= r1 < self.rooms@.len() && 0 <= r2 < self.rooms@.len()
                        && #[trigger] self.rooms@[r1].name@ == #[trigger] self.rooms@[r2].name@ implies r1
                    == r2 by {
                    let o1: int = if r1 < rv { r1 } else { r1 + 1 };
                    let o2: int = if r2 < rv { r2 } else { r2 + 1 };
                    assert(pre.rooms@[o1].name@ == pre.rooms@[o2].name@);
                }
                assert(self.spec_members_registered()) by {
                    assert forall|rr: int, m: int|
                        0 <= rr < self.rooms@.len() && 0 <= m
                            < self.rooms@[rr].users@.len() implies spec_contains_bytes(
                        self.users@,
                        #[trigger] self.rooms@[rr].users@[m]@,
                    ) by {
                        let o: int = if rr < rv { rr } else { rr + 1 };
                        assert(self.rooms@[rr] == pre.rooms@[o]);
                    }
                }
                assert(self.spec_streams_exclusive()) by {
                    assert forall|r1: int, i1: int, r2: int, i2: int|
                        0 <= r1 < self.rooms@.len() && 0 <= i1
                            < self.rooms@[r1].video_streams@.len() && 0 <= r2 < self.rooms@.len()
                            && 0 <= i2 < self.rooms@[r2].video_streams@.len()
                            && #[trigger] self.rooms@[r1].video_streams@[i1].sid@
                            == #[trigger] self.rooms@[r2].video_streams@[i2].sid@ implies r1 == r2
                        && i1 == i2 by {
                        let o1: int = if r1 < rv { r1 } else { r1 + 1 };
                        let o2: int = if r2 < rv { r2 } else { r2 + 1 };
                        assert(pre.rooms@[o1].video_streams@[i1].sid@
                            == pre.rooms@[o2].video_streams@[i2].sid@);
                    }
                    assert forall|r1: int, i1: int, r2: int, i2: int|
                        0 <= r1 < self.rooms@.len() && 0 <= i1
                            < self.rooms@[r1].audio_streams@.len() && 0 <= r2 < self.rooms@.len()
                            && 0 <= i2 < self.rooms@[r2].audio_streams@.len()
                            && #[trigger] self.rooms@[r1].audio_streams@[i1].sid@
                            == #[trigger] self.rooms@[r2].audio_streams@[i2].sid@ implies r1 == r2
                        && i1 == i2 by {
                        let o1: int = if r1 < rv { r1 } else { r1 + 1 };
                        let o2: int = if r2 < rv { r2 } else { r2 + 1 };
                        assert(pre.rooms@[o1].audio_streams@[i1].sid@
                            == pre.rooms@[o2].audio_streams@[i2].sid@);
                    }
                    assert forall|r1: int, i1: int, r2: int, i2: int|
                        0 <= r1 < self.rooms@.len() && 0 <= i1
                            < self.rooms@[r1].video_streams@.len() && 0 <= r2 < self.rooms@.len()
                            && 0 <= i2 < self.rooms@[r2].audio_streams@.len() implies #[trigger] self.rooms@[r1].video_streams@[i1].sid@
                        != #[trigger] self.rooms@[r2].audio_streams@[i2].sid@ by {
                        let o1: int = if r1 < rv { r1 } else { r1 + 1 };
                        let o2: int = if r2 < rv { r2 } else { r2 + 1 };
                        assert(self.rooms@[r1] == pre.rooms@[o1]);
                        assert(self.rooms@[r2] == pre.rooms@[o2]);
                    }
                }
            }
        }
    }

    /// Enrolls a registered user in the room at index `r`: appends the
    /// member and one fresh stream per table, with no address yet.
    pub fn join_room_at(&mut self, r: usize, name: Vec<u8>, vsid: Vec<u8>, asid: Vec<u8>)
        requires
            old(self).spec_wf(),
            r < old(self).rooms@.len(),
            spec_contains_bytes(old(self).users@, name@),
            !old(self).spec_user_in_some_room(name@),
            vsid@.len() == ID_LEN,
            asid@.len() == ID_LEN,
            !old(self).spec_has_sid(vsid@),
            !old(self).spec_has_sid(asid@),
            vsid@ != asid@,
        ensures
            final(self).spec_wf(),
            final(self).users == old(self).users,
            final(self).rooms@.len() == old(self).rooms@.len(),
            forall|k: int|
                0 <= k < old(self).rooms@.len() && k != r ==> #[trigger] final(self).rooms@[k]
                    == old(self).rooms@[k],
            final(self).rooms@[r as int].id == old(self).rooms@[r as int].id,
            final(self).rooms@[r as int].name == old(self).rooms@[r as int].name,
            final(self).rooms@[r as int].users@ == old(self).rooms@[r as int].users@.push(name),
            final(self).rooms@[r as int].video_streams@ == old(self).rooms@[
                r as int
            ].video_streams@.push((StreamEntry { sid: vsid, addr: None })),
            final(self).rooms@[r as int].audio_streams@ == old(self).rooms@[
                r as int
            ].audio_streams@.push((StreamEntry { sid: asid, addr: None })),
    {
        let ghost pre = *self;
        let ghost ventry = (StreamEntry { sid: vsid, addr: None });
        let ghost aentry = (StreamEntry { sid: asid, addr: None });
        let room = &mut self.rooms[r];
        room.users.push(name);
        room.video_streams.push(StreamEntry { sid: vsid, addr: None });
        room.audio_streams.push(StreamEntry { sid: asid, addr: None });
        proof {
            let rv = r as int;
            assert(forall|k: int|
                0 <= k < pre.rooms@.len() && k != rv ==> #[trigger] self.rooms@[k]
                    == pre.rooms@[k]);
            let pr = pre.rooms@[rv];
            let nr = self.rooms@[rv];
            assert(nr.users@ == pr.users@.push(name));
            assert(nr.video_streams@ == pr.video_streams@.push(ventry));
            assert(nr.audio_streams@ == pr.audio_streams@.push(aentry));
            let vn = pr.video_streams@.len() as int;
            let an = pr.audio_streams@.len() as int;
            assert(forall|rr: int|
                0 <= rr < pre.rooms@.len() ==> !#[trigger] pre.rooms@[rr].spec_has_stream(vsid@)
                    && !pre.rooms@[rr].spec_has_stream(asid@));
            assert(!pre.rooms@[rv].spec_has_stream(vsid@));
            assert(!pre.rooms@[rv].spec_has_stream(asid@));
            assert(!spec_table_has(pr.video_streams@, vsid@));
            assert(!spec_table_has(pr.audio_streams@, asid@));
            assert(!spec_table_has(pr.audio_streams@, vsid@));
            assert(!spec_table_has(pr.video_streams@, asid@));
            assert(!pre.rooms@[rv].spec_has_user(name@));
            assert(pre.rooms@[rv].spec_wf());
            assert(self.spec_wf()) by {
                assert(nr.spec_wf()) by {
                    assert(nr.id == pr.id);
                    assert(nr.name == pr.name);
                    assert(forall|i: int|
                        0 <= i < pr.users@.len() ==> #[trigger] nr.users@[i] == pr.users@[i]);
                    assert(nr.users@[pr.users@.len() as int]@ == name@);
                    assert forall|i: int, j: int|
                        0 <= i < nr.users@.len() && 0 <= j < nr.users@.len()
                            && #[trigger] nr.users@[i]@ == #[trigger] nr.users@[j]@ implies i
                        == j by {
                        let un = pr.users@.len() as int;
                        if i < un && j == un {
                            assert(pr.users@[i]@ == name@);
                            assert(pr.spec_has_user(name@));
                        }
                        if j < un && i == un {
                            assert(pr.users@[j]@ == name@);
                            assert(pr.spec_has_user(name@));
                        }
                        if i < un && j < un {
                            assert(pr.users@[i]@ == pr.users@[j]@);
                        }
                    }
                    assert(crate::room::spec_table_ids_sized(nr.video_streams@)) by {
                        assert(nr.video_streams@[vn].sid@.len() == ID_LEN);
                    }
                    assert(crate::room::spec_table_ids_sized(nr.audio_streams@)) by {
                        assert(nr.audio_streams@[an].sid@.len() == ID_LEN);
                    }
                    assert(forall|i: int|
                        0 <= i < vn ==> #[trigger] nr.video_streams@[i] == pr.video_streams@[i]);
                    assert(forall|i: int|
                        0 <= i < an ==> #[trigger] nr.audio_streams@[i] == pr.audio_streams@[i]);
                    assert forall|i: int, j: int|
                        0 <= i < nr.video_streams@.len() && 0 <= j < nr.video_streams@.len()
                            && #[trigger] nr.video_streams@[i].sid@
                            == #[trigger] nr.video_streams@[j].sid@ implies i == j by {
                        if i < vn && j == vn {
                            assert(pr.video_streams@[i].sid@ == vsid@);
                        }
                        if j < vn && i == vn {
                            assert(pr.video_streams@[j].sid@ == vsid@);
                        }
                    }
                    assert forall|i: int, j: int|
                        0 <= i < nr.audio_streams@.len() && 0 <= j < nr.audio_streams@.len()
                            && #[trigger] nr.audio_streams@[i].sid@
                            == #[trigger] nr.audio_streams@[j].sid@ implies i == j by {
                        if i < an && j == an {
                            assert(pr.audio_streams@[i].sid@ == asid@);
                        }
                        if j < an && i == an {
                            assert(pr.audio_streams@[j].sid@ == asid@);
                        }
                    }
                    assert forall|i: int, j: int|
                        0 <= i < nr.video_streams@.len() && 0 <= j
                            < nr.audio_streams@.len() implies #[trigger] nr.video_streams@[i].sid@
                        != #[trigger] nr.audio_streams@[j].sid@ by {
                        if i < vn && j < an {
                        } else if i == vn && j == an {
                            assert(nr.video_streams@[i].sid@ == vsid@);
                            assert(nr.audio_streams@[j].sid@ == asid@);
                        } else if i == vn {
                            assert(!spec_table_has(pr.audio_streams@, vsid@));
                        } else {
                            assert(!spec_table_has(pr.video_streams@, asid@));
                        }
                    }
                }
                assert(self.spec_members_registered()) by {
                    assert forall|rr: int, m: int|
                        0 <= rr < self.rooms@.len() && 0 <= m
                            < self.rooms@[rr].users@.len() implies spec_contains_bytes(
                        self.users@,
                        #[trigger] self.rooms@[rr].users@[m]@,
                    ) by {
                        assert(self.users@ == pre.users@);
                        if rr == rv && m == pr.users@.len() {
                            assert(self.rooms@[rr].users@[m]@ == name@);
                            assert(spec_contains_bytes(pre.users@, name@));
                        } else if rr == rv {
                            assert(self.rooms@[rr].users@[m] == pr.users@[m]);
                            assert(spec_contains_bytes(pre.users@, pr.users@[m]@));
                        } else {
                            assert(self.rooms@[rr] == pre.rooms@[rr]);
                            assert(spec_contains_bytes(pre.users@, pre.rooms@[rr].users@[m]@));
                        }
                    }
                }
                assert forall|k: int|
                    0 <= k < self.rooms@.len() implies #[trigger] self.rooms@[k].spec_wf() by {
                    if k != rv {
                        assert(self.rooms@[k] == pre.rooms@[k]);
                        assert(pre.rooms@[k].spec_wf());
                    }
                }
                assert forall|r1: int, r2: int|
                    0 <= r1 < self.rooms@.len() && 0 <= r2 < self.rooms@.len()
                        && #[trigger] self.rooms@[r1].id@ == #[trigger] self.rooms@[r2].id@ implies r1
                    == r2 by {
                    assert(self.rooms@[r1].id@ == pre.rooms@[r1].id@);
                    assert(self.rooms@[r2].id@ == pre.rooms@[r2].id@);
                }
                assert forall|r1: int, r2: int|
                    0 <= r1 < self.rooms@.len() && 0 <= r2 < self.rooms@.len()
                        && #[trigger] self.rooms@[r1].name@ == #[trigger] self.rooms@[r2].name@ implies r1
                    == r2 by {
                    assert(self.rooms@[r1].name@ == pre.rooms@[r1].name@);
                    assert(self.rooms@[r2].name@ == pre.rooms@[r2].name@);
                }
                assert(self.spec_streams_exclusive()) by {
                    assert forall|r1: int, i1: int, r2: int, i2: int|
                        0 <= r1 < self.rooms@.len() && 0 <= i1
                            < self.rooms@[r1].video_streams@.len() && 0 <= r2 < self.rooms@.len()
                            && 0 <= i2 < self.rooms@[r2].video_streams@.len()
                            && #[trigger] self.rooms@[r1].video_streams@[i1].sid@
                            == #[trigger] self.rooms@[r2].video_streams@[i2].sid@ implies r1 == r2
                        && i1 == i2 by {
                        let s1 = self.rooms@[r1].video_streams@[i1].sid@;
                        let fresh1 = r1 == rv && i1 == vn;
                        let fresh2 = r2 == rv && i2 == vn;
                        if fresh1 && fresh2 {
                        } else if fresh1 {
                            assert(self.rooms@[r2].video_streams@[i2]
                                == pre.rooms@[r2].video_streams@[i2]);
                            assert(!pre.rooms@[r2].spec_has_stream(vsid@));
                            assert(false);
                        } else if fresh2 {
                            assert(self.rooms@[r1].video_streams@[i1]
                                == pre.rooms@[r1].video_streams@[i1]);
                            assert(!pre.rooms@[r1].spec_has_stream(vsid@));
                            assert(false);
                        } else {
                            assert(self.rooms@[r1].video_streams@[i1]
                                == pre.rooms@[r1].video_streams@[i1]);
                            assert(self.rooms@[r2].video_streams@[i2]
                                == pre.rooms@[r2].video_streams@[i2]);
                        }
                    }
                    assert forall|r1: int, i1: int, r2: int, i2: int|
                        0 <= r1 < self.rooms@.len() && 0 <= i1
                            < self.rooms@[r1].audio_streams@.len() && 0 <= r2 < self.rooms@.len()
                            && 0 <= i2 < self.rooms@[r2].audio_streams@.len()
                            && #[trigger] self.rooms@[r1].audio_streams@[i1].sid@
                            == #[trigger] self.rooms@[r2].audio_streams@[i2].sid@ implies r1 == r2
                        && i1 == i2 by {
                        let fresh1 = r1 == rv && i1 == an;
                        let fresh2 = r2 == rv && i2 == an;
                        if fresh1 && fresh2 {
                        } else if fresh1 {
                            assert(self.rooms@[r2].audio_streams@[i2]
                                == pre.rooms@[r2].audio_streams@[i2]);
                            assert(!pre.rooms@[r2].spec_has_stream(asid@));
                            assert(false);
                        } else if fresh2 {
                            assert(self.rooms@[r1].audio_streams@[i1]
                                == pre.rooms@[r1].audio_streams@[i1]);
                            assert(!pre.rooms@[r1].spec_has_stream(asid@));
                            assert(false);
                        } else {
                            assert(self.rooms@[r1].audio_streams@[i1]
                                == pre.rooms@[r1].audio_streams@[i1]);
                            assert(self.rooms@[r2].audio_streams@[i2]
                                == pre.rooms@[r2].audio_streams@[i2]);
                        }
                    }
                    assert forall|r1: int, i1: int, r2: int, i2: int|
                        0 <= r1 < self.rooms@.len() && 0 <= i1
                            < self.rooms@[r1].video_streams@.len() && 0 <= r2 < self.rooms@.len()
                            && 0 <= i2
                            < self.rooms@[r2].audio_streams@.len() implies #[trigger] self.rooms@[r1].video_streams@[i1].sid@
                        != #[trigger] self.rooms@[r2].audio_streams@[i2].sid@ by {
                        let fresh1 = r1 == rv && i1 == vn;
                        let fresh2 = r2 == rv && i2 == an;
                        if fresh1 && fresh2 {
                        } else if fresh1 {
                            assert(self.rooms@[r2].audio_streams@[i2]
                                == pre.rooms@[r2].audio_streams@[i2]);
                            assert(!pre.rooms@[r2].spec_has_stream(vsid@));
                        } else if fresh2 {
                            assert(self.rooms@[r1].video_streams@[i1]
                                == pre.rooms@[r1].video_streams@[i1]);
                            assert(!pre.rooms@[r1].spec_has_stream(asid@));
                        } else {
                            assert(self.rooms@[r1].video_streams@[i1]
                                == pre.rooms@[r1].video_streams@[i1]);
                            assert(self.rooms@[r2].audio_streams@[i2]
                                == pre.rooms@[r2].audio_streams@[i2]);
                        }
                    }
                }
            }
        }
    }
}

impl ServerState {
    /// Clears one room of a departing session: the username, the video
    /// stream and the audio stream, each removed where present.
    pub fn purge_room_at(&mut self, r: usize, name: &[u8], vsid: &[u8], asid: &[u8])
        requires
            old(self).spec_wf(),
            r < old(self).rooms@.len(),
        ensures
            final(self).spec_wf(),
            final(self).users == old(self).users,
            final(self).rooms@.len() == old(self).rooms@.len(),
            forall|k: int|
                0 <= k < old(self).rooms@.len() && k != r ==> #[trigger] final(self).rooms@[k]
                    == old(self).rooms@[k],
            spec_room_purged(
                old(self).rooms@[r as int],
                final(self).rooms@[r as int],
                name@,
                vsid@,
                asid@,
            ),
            !final(self).rooms@[r as int].spec_has_user(name@),
            !spec_table_has(final(self).rooms@[r as int].video_streams@, vsid@),
            !spec_table_has(final(self).rooms@[r as int].audio_streams@, asid@),
    {
        let ghost pre = *self;
        let ghost rv = r as int;
        let ghost pr = pre.rooms@[rv];
        proof {
            assert(pr.spec_wf());
        }
        let room = &mut self.rooms[r];
        let found_u = find_bytes(&room.users, name);
        let ghost uidx: int = match found_u {
            Some(i) => i as int,
            None => -1,
        };
        if let Some(i) = found_u {
            room.users.remove(i);
        }
        let found_v = find_sid(&room.video_streams, vsid);
        let ghost vidx: int = match found_v {
            Some(i) => i as int,
            None => -1,
        };
        if let Some(i) = found_v {
            room.video_streams.remove(i);
        }
        let found_a = find_sid(&room.audio_streams, asid);
        let ghost aidx: int = match found_a {
            Some(i) => i as int,
            None => -1,
        };
        if let Some(i) = found_a {
            room.audio_streams.remove(i);
        }
        proof {
            let nr = self.rooms@[rv];
            assert(forall|k: int|
                0 <= k < pre.rooms@.len() && k != rv ==> #[trigger] self.rooms@[k]
                    == pre.rooms@[k]);
            assert(nr.id == pr.id && nr.name == pr.name);
            // Per-list facts: each list is the old one, or the old one less
            // the found index.
            if uidx >= 0 {
                assert(pr.users@[uidx]@ == name@);
                assert(nr.users@ == pr.users@.remove(uidx));
                assert(spec_contains_bytes(pr.users@, name@));
            } else {
                assert(nr.users@ == pr.users@);
                assert(!spec_contains_bytes(pr.users@, name@));
            }
            if vidx >= 0 {
                assert(pr.video_streams@[vidx].sid@ == vsid@);
                assert(nr.video_streams@ == pr.video_streams@.remove(vidx));
                assert(spec_table_has(pr.video_streams@, vsid@));
            } else {
                assert(nr.video_streams@ == pr.video_streams@);
                assert(!spec_table_has(pr.video_streams@, vsid@));
            }
            if aidx >= 0 {
                assert(pr.audio_streams@[aidx].sid@ == asid@);
                assert(nr.audio_streams@ == pr.audio_streams@.remove(aidx));
                assert(spec_table_has(pr.audio_streams@, asid@));
            } else {
                assert(nr.audio_streams@ == pr.audio_streams@);
                assert(!spec_table_has(pr.audio_streams@, asid@));
            }
            assert(spec_room_purged(pr, nr, name@, vsid@, asid@));
            // Index maps from the purged lists back into the old ones.
            assert forall|m: int| 0 <= m < nr.users@.len() implies #[trigger] nr.users@[m] == (
            if uidx >= 0 && m >= uidx {
                pr.users@[m + 1]
            } else {
                pr.users@[m]
            }) by {}
            assert forall|m: int| 0 <= m < nr.video_streams@.len() implies #[trigger] nr.video_streams@[m]
                == (if vidx >= 0 && m >= vidx {
                pr.video_streams@[m + 1]
            } else {
                pr.video_streams@[m]
            }) by {}
            assert forall|m: int| 0 <= m < nr.audio_streams@.len() implies #[trigger] nr.audio_streams@[m]
                == (if aidx >= 0 && m >= aidx {
                pr.audio_streams@[m + 1]
            } else {
                pr.audio_streams@[m]
            }) by {}
            assert(!nr.spec_has_user(name@)) by {
                if uidx >= 0 {
                    assert forall|m: int| 0 <= m < nr.users@.len() implies #[trigger] nr.users@[m]@
                        != name@ by {
                        if m >= uidx {
                            assert(pr.users@[m + 1]@ != name@ || m + 1 == uidx);
                        }
                    }
                }
            }
            assert(!spec_table_has(nr.video_streams@, vsid@)) by {
                if vidx >= 0 {
                    assert forall|m: int|
                        0 <= m < nr.video_streams@.len() implies #[trigger] nr.video_streams@[m].sid@
                        != vsid@ by {
                        if m >= vidx {
                            assert(pr.video_streams@[m + 1].sid@ != vsid@ || m + 1 == vidx);
                        }
                    }
                }
            }
            assert(!spec_table_has(nr.audio_streams@, asid@)) by {
                if aidx >= 0 {
                    assert forall|m: int|
                        0 <= m < nr.audio_streams@.len() implies #[trigger] nr.audio_streams@[m].sid@
                        != asid@ by {
                        if m >= aidx {
                            assert(pr.audio_streams@[m + 1].sid@ != asid@ || m + 1 == aidx);
                        }
                    }
                }
            }
            assert(nr.spec_wf()) by {
                assert(spec_names_unique(nr.users@)) by {
                    assert forall|i: int, j: int|
                        0 <= i < nr.users@.len() && 0 <= j < nr.users@.len()
                            && #[trigger] nr.users@[i]@ == #[trigger] nr.users@[j]@ implies i
                        == j by {
                        let io: int = if uidx >= 0 && i >= uidx {
                            i + 1
                        } else {
                            i
                        };
                        let jo: int = if uidx >= 0 && j >= uidx {
                            j + 1
                        } else {
                            j
                        };
                        assert(pr.users@[io]@ == pr.users@[jo]@);
                    }
                }
                assert(crate::room::spec_table_unique(nr.video_streams@)) by {
                    assert forall|i: int, j: int|
                        0 <= i < nr.video_streams@.len() && 0 <= j < nr.video_streams@.len()
                            && #[trigger] nr.video_streams@[i].sid@
                            == #[trigger] nr.video_streams@[j].sid@ implies i == j by {
                        let io: int = if vidx >= 0 && i >= vidx {
                            i + 1
                        } else {
                            i
                        };
                        let jo: int = if vidx >= 0 && j >= vidx {
                            j + 1
                        } else {
                            j
                        };
                        assert(pr.video_streams@[io].sid@ == pr.video_streams@[jo].sid@);
                    }
                }
                assert(crate::room::spec_table_unique(nr.audio_streams@)) by {
                    assert forall|i: int, j: int|
                        0 <= i < nr.audio_streams@.len() && 0 <= j < nr.audio_streams@.len()
                            && #[trigger] nr.audio_streams@[i].sid@
                            == #[trigger] nr.audio_streams@[j].sid@ implies i == j by {
                        let io: int = if aidx >= 0 && i >= aidx {
                            i + 1
                        } else {
                            i
                        };
                        let jo: int = if aidx >= 0 && j >= aidx {
                            j + 1
                        } else {
                            j
                        };
                        assert(pr.audio_streams@[io].sid@ == pr.audio_streams@[jo].sid@);
                    }
                }
                assert forall|i: int, j: int|
                    0 <= i < nr.video_streams@.len() && 0 <= j
                        < nr.audio_streams@.len() implies #[trigger] nr.video_streams@[i].sid@
                    != #[trigger] nr.audio_streams@[j].sid@ by {
                    let io: int = if vidx >= 0 && i >= vidx {
                        i + 1
                    } else {
                        i
                    };
                    let jo: int = if aidx >= 0 && j >= aidx {
                        j + 1
                    } else {
                        j
                    };
                    assert(pr.video_streams@[io].sid@ != pr.audio_streams@[jo].sid@);
                }
            }
            assert(self.spec_wf()) by {
                assert forall|k: int|
                    0 <= k < self.rooms@.len() implies #[trigger] self.rooms@[k].spec_wf() by {
                    if k != rv {
                        assert(self.rooms@[k] == pre.rooms@[k]);
                    }
                }
                assert forall|r1: int, r2: int|
                    0 <= r1 < self.rooms@.len() && 0 <= r2 < self.rooms@.len()
                        && #[trigger] self.rooms@[r1].id@ == #[trigger] self.rooms@[r2].id@ implies r1
                    == r2 by {
                    assert(self.rooms@[r1].id@ == pre.rooms@[r1].id@);
                    assert(self.rooms@[r2].id@ == pre.rooms@[r2].id@);
                }
                assert forall|r1: int, r2: int|
                    0 <= r1 < self.rooms@.len() && 0 <= r2 < self.rooms@.len()
                        && #[trigger] self.rooms@[r1].name@ == #[trigger] self.rooms@[r2].name@ implies r1
                    == r2 by {
                    assert(self.rooms@[r1].name@ == pre.rooms@[r1].name@);
                    assert(self.rooms@[r2].name@ == pre.rooms@[r2].name@);
                }
                assert(self.spec_members_registered()) by {
                    assert forall|k: int, m: int|
                        0 <= k < self.rooms@.len() && 0 <= m
                            < self.rooms@[k].users@.len() implies spec_contains_bytes(
                        self.users@,
                        #[trigger] self.rooms@[k].users@[m]@,
                    ) by {
                        if k == rv {
                            let mo: int = if uidx >= 0 && m >= uidx {
                                m + 1
                            } else {
                                m
                            };
                            assert(self.rooms@[k].users@[m] == pr.users@[mo]);
                        } else {
                            assert(self.rooms@[k] == pre.rooms@[k]);
                        }
                    }
                }
                assert(self.spec_streams_exclusive()) by {
                    assert forall|r1: int, i1: int, r2: int, i2: int|
                        0 <= r1 < self.rooms@.len() && 0 <= i1
                            < self.rooms@[r1].video_streams@.len() && 0 <= r2 < self.rooms@.len()
                            && 0 <= i2 < self.rooms@[r2].video_streams@.len()
                            && #[trigger] self.rooms@[r1].video_streams@[i1].sid@
                            == #[trigger] self.rooms@[r2].video_streams@[i2].sid@ implies r1 == r2
                        && i1 == i2 by {
                        let o1: int = if r1 == rv && vidx >= 0 && i1 >= vidx {
                            i1 + 1
                        } else {
                            i1
                        };
                        let o2: int = if r2 == rv && vidx >= 0 && i2 >= vidx {
                            i2 + 1
                        } else {
                            i2
                        };
                        assert(self.rooms@[r1].video_streams@[i1]
                            == pre.rooms@[r1].video_streams@[o1]);
                        assert(self.rooms@[r2].video_streams@[i2]
                            == pre.rooms@[r2].video_streams@[o2]);
                    }
                    assert forall|r1: int, i1: int, r2: int, i2: int|
                        0 <= r1 < self.rooms@.len() && 0 <= i1
                            < self.rooms@[r1].audio_streams@.len() && 0 <= r2 < self.rooms@.len()
                            && 0 <= i2 < self.rooms@[r2].audio_streams@.len()
                            && #[trigger] self.rooms@[r1].audio_streams@[i1].sid@
                            == #[trigger] self.rooms@[r2].audio_streams@[i2].sid@ implies r1 == r2
                        && i1 == i2 by {
                        let o1: int = if r1 == rv && aidx >= 0 && i1 >= aidx {
                            i1 + 1
                        } else {
                            i1
                        };
                        let o2: int = if r2 == rv && aidx >= 0 && i2 >= aidx {
                            i2 + 1
                        } else {
                            i2
                        };
                        assert(self.rooms@[r1].audio_streams@[i1]
                            == pre.rooms@[r1].audio_streams@[o1]);
                        assert(self.rooms@[r2].audio_streams@[i2]
                            == pre.rooms@[r2].audio_streams@[o2]);
                    }
                    assert forall|r1: int, i1: int, r2: int, i2: int|
                        0 <= r1 < self.rooms@.len() && 0 <= i1
                            < self.rooms@[r1].video_streams@.len() && 0 <= r2 < self.rooms@.len()
                            && 0 <= i2
                            < self.rooms@[r2].audio_streams@.len() implies #[trigger] self.rooms@[r1].video_streams@[i1].sid@
                        != #[trigger] self.rooms@[r2].audio_streams@[i2].sid@ by {
                        let o1: int = if r1 == rv && vidx >= 0 && i1 >= vidx {
                            i1 + 1
                        } else {
                            i1
                        };
                        let o2: int = if r2 == rv && aidx >= 0 && i2 >= aidx {
                            i2 + 1
                        } else {
                            i2
                        };
                        assert(self.rooms@[r1].video_streams@[i1]
                            == pre.rooms@[r1].video_streams@[o1]);
                        assert(self.rooms@[r2].audio_streams@[i2]
                            == pre.rooms@[r2].audio_streams@[o2]);
                    }
                }
            }
        }
    }
}

/// Whatever the table still holds after a removal, it held before.
pub proof fn lemma_removed_sid_keeps_absent(
    pre: Seq<StreamEntry>,
    post: Seq<StreamEntry>,
    removed: Seq<u8>,
    other: Seq<u8>,
)
    requires
        spec_removed_sid(pre, post, removed),
        !spec_table_has(pre, other),
    ensures
        !spec_table_has(post, other),
{
    if spec_table_has(pre, removed) {
        let i = choose|i: int|
            0 <= i < pre.len() && #[trigger] pre[i].sid@ == removed && post == pre.remove(i);
        assert forall|m: int| 0 <= m < post.len() implies #[trigger] post[m].sid@ != other by {
            if m < i {
                assert(post[m] == pre[m]);
            } else {
                assert(post[m] == pre[m + 1]);
            }
        }
    }
}

impl ServerState {
    /// Some video table of some room holds this identifier.
    pub open spec fn spec_sid_in_video(self, sid: Seq<u8>) -> bool {
        exists|r: int|
            0 <= r < self.rooms@.len() && spec_table_has(
                #[trigger] self.rooms@[r].video_streams@,
                sid,
            )
    }

    /// Some audio table of some room holds this identifier.
    pub open spec fn spec_sid_in_audio(self, sid: Seq<u8>) -> bool {
        exists|r: int|
            0 <= r < self.rooms@.len() && spec_table_has(
                #[trigger] self.rooms@[r].audio_streams@,
                sid,
            )
    }

    /// Whether any video table holds this identifier.
    pub fn sid_in_video_tables(&self, sid: &[u8]) -> (r: bool)
        ensures
            r == self.spec_sid_in_video(sid@),
    {
        let mut i: usize = 0;
        while i < self.rooms.len()
            invariant
                0 <= i <= self.rooms@.len(),
                forall|j: int|
                    0 <= j < i ==> !spec_table_has(#[trigger] self.rooms@[j].video_streams@, sid@),
            decreases self.rooms@.len() - i,
        {
            if table_has_sid(&self.rooms[i].video_streams, sid) {
                return true;
            }
            i = i + 1;
        }
        false
    }

    /// Whether any audio table holds this identifier.
    pub fn sid_in_audio_tables(&self, sid: &[u8]) -> (r: bool)
        ensures
            r == self.spec_sid_in_audio(sid@),
    {
        let mut i: usize = 0;
        while i < self.rooms.len()
            invariant
                0 <= i <= self.rooms@.len(),
                forall|j: int|
                    0 <= j < i ==> !spec_table_has(#[trigger] self.rooms@[j].audio_streams@, sid@),
            decreases self.rooms@.len() - i,
        {
            if table_has_sid(&self.rooms[i].audio_streams, sid) {
                return true;
            }
            i = i + 1;
        }
        false
    }

    /// Clears a departed session everywhere: the username leaves every
    /// member list, the video stream its table, the audio stream its
    /// table. Returns the index of the room that held the video stream
    /// and a copy of that room's remaining member names, for the
    /// departure notices.
    pub fn purge_session(&mut self, name: &[u8], vsid: &[u8], asid: &[u8]) -> (r: Option<
        (usize, Vec<Vec<u8>>),
    >)
        requires
            old(self).spec_wf(),
            !old(self).spec_sid_in_audio(vsid@),
            !old(self).spec_sid_in_video(asid@),
        ensures
            final(self).spec_wf(),
            final(self).users == old(self).users,
            final(self).rooms@.len() == old(self).rooms@.len(),
            forall|k: int|
                0 <= k < old(self).rooms@.len() ==> spec_room_purged(
                    #[trigger] old(self).rooms@[k],
                    final(self).rooms@[k],
                    name@,
                    vsid@,
                    asid@,
                ),
            !final(self).spec_user_in_some_room(name@),
            !final(self).spec_has_sid(vsid@),
            !final(self).spec_has_sid(asid@),
            match r {
                Some((rr, members)) => {
                    let post = *final(self);
                    &&& rr < old(self).rooms@.len()
                    &&& spec_table_has(old(self).rooms@[rr as int].video_streams@, vsid@)
                    &&& members@.len() == post.rooms@[rr as int].users@.len()
                    &&& forall|m: int|
                        0 <= m < members@.len() ==> #[trigger] members@[m]@ == post.rooms@[
                            rr as int
                        ].users@[m]@
                },
                None => !old(self).spec_has_sid(vsid@),
            },
    {
        let ghost pre = *self;
        let mut vroom: Option<usize> = None;
        let mut r: usize = 0;
        while r < self.rooms.len()
            invariant
                0 <= r <= self.rooms@.len(),
                self.spec_wf(),
                self.users == pre.users,
                self.rooms@.len() == pre.rooms@.len(),
                !pre.spec_sid_in_audio(vsid@),
                !pre.spec_sid_in_video(asid@),
                forall|k: int| r <= k < pre.rooms@.len() ==> #[trigger] self.rooms@[k]
                    == pre.rooms@[k],
                forall|k: int|
                    0 <= k < r ==> spec_room_purged(
                        #[trigger] pre.rooms@[k],
                        self.rooms@[k],
                        name@,
                        vsid@,
                        asid@,
                    ),
                forall|k: int|
                    0 <= k < r ==> !#[trigger] self.rooms@[k].spec_has_user(name@)
                        && !spec_table_has(self.rooms@[k].video_streams@, vsid@) && !spec_table_has(
                        self.rooms@[k].audio_streams@,
                        vsid@,
                    ) && !spec_table_has(self.rooms@[k].video_streams@, asid@) && !spec_table_has(
                        self.rooms@[k].audio_streams@,
                        asid@,
                    ),
                match vroom {
                    Some(rr) => rr < r && spec_table_has(
                        pre.rooms@[rr as int].video_streams@,
                        vsid@,
                    ),
                    None => forall|k: int|
                        0 <= k < r ==> !spec_table_has(
                            #[trigger] pre.rooms@[k].video_streams@,
                            vsid@,
                        ),
                },
            decreases self.rooms@.len() - r,
        {
            let had_vsid = table_has_sid(&self.rooms[r].video_streams, vsid);
            let ghost before_room = self.rooms@[r as int];
            proof {
                assert(before_room == pre.rooms@[r as int]);
                assert(!spec_table_has(before_room.audio_streams@, vsid@));
                assert(!spec_table_has(before_room.video_streams@, asid@));
            }
            self.purge_room_at(r, name, vsid, asid);
            proof {
                lemma_removed_sid_keeps_absent(
                    before_room.audio_streams@,
                    self.rooms@[r as int].audio_streams@,
                    asid@,
                    vsid@,
                );
                lemma_removed_sid_keeps_absent(
                    before_room.video_streams@,
                    self.rooms@[r as int].video_streams@,
                    vsid@,
                    asid@,
                );
            }
            if had_vsid {
                vroom = Some(r);
            }
            r = r + 1;
        }
        proof {
            assert(!self.spec_user_in_some_room(name@)) by {
                assert(forall|k: int|
                    0 <= k < self.rooms@.len() ==> !#[trigger] self.rooms@[k].spec_has_user(
                        name@,
                    ));
            }
            assert(!self.spec_has_sid(vsid@)) by {
                assert forall|k: int|
                    0 <= k < self.rooms@.len() implies !#[trigger] self.rooms@[
                    k
                ].spec_has_stream(vsid@) by {
                    assert(!self.rooms@[k].spec_has_user(name@));
                    assert(!spec_table_has(self.rooms@[k].video_streams@, vsid@));
                    assert(!spec_table_has(self.rooms@[k].audio_streams@, vsid@));
                }
            }
            assert(!self.spec_has_sid(asid@)) by {
                assert forall|k: int|
                    0 <= k < self.rooms@.len() implies !#[trigger] self.rooms@[
                    k
                ].spec_has_stream(asid@) by {
                    assert(!self.rooms@[k].spec_has_user(name@));
                    assert(!spec_table_has(self.rooms@[k].video_streams@, asid@));
                    assert(!spec_table_has(self.rooms@[k].audio_streams@, asid@));
                }
            }
        }
        match vroom {
            Some(rr) => {
                let members = crate::byteops::clone_names(&self.rooms[rr].users);
                Some((rr, members))
            },
            None => {
                proof {
                    assert(!pre.spec_has_sid(vsid@)) by {
                        assert(forall|k: int|
                            0 <= k < pre.rooms@.len()
                                ==> !#[trigger] pre.rooms@[k].spec_has_stream(vsid@));
                    }
                }
                None
            },
        }
    }
}

impl ServerState {
    /// Binds the video stream at slot `j` of room `r` to the sender's
    /// address; only an unbound slot may learn one.
    pub fn learn_video_addr(&mut self, r: usize, j: usize, from: u64)
        requires
            old(self).spec_wf(),
            r < old(self).rooms@.len(),
            j < old(self).rooms@[r as int].video_streams@.len(),
            old(self).rooms@[r as int].video_streams@[j as int].addr is None,
        ensures
            final(self).spec_wf(),
            final(self).users == old(self).users,
            final(self).rooms@.len() == old(self).rooms@.len(),
            forall|k: int|
                0 <= k < old(self).rooms@.len() && k != r ==> #[trigger] final(self).rooms@[k]
                    == old(self).rooms@[k],
            ({
                let pr = old(self).rooms@[r as int];
                let nr = final(self).rooms@[r as int];
                &&& nr.id == pr.id
                &&& nr.name == pr.name
                &&& nr.users == pr.users
                &&& nr.audio_streams == pr.audio_streams
                &&& nr.video_streams@.len() == pr.video_streams@.len()
                &&& (forall|m: int|
                    0 <= m < pr.video_streams@.len() && m != j
                        ==> #[trigger] nr.video_streams@[m] == pr.video_streams@[m])
                &&& nr.video_streams@[j as int].sid == pr.video_streams@[j as int].sid
                &&& nr.video_streams@[j as int].addr == Some(from)
            }),
    {
        let ghost pre = *self;
        let room = &mut self.rooms[r];
        let entry = &mut room.video_streams[j];
        entry.addr = Some(from);
        proof {
            lemma_same_sids_wf(pre, *self);
        }
    }

    /// Binds the audio stream at slot `j` of room `r` to the sender's
    /// address; only an unbound slot may learn one.
    pub fn learn_audio_addr(&mut self, r: usize, j: usize, from: u64)
        requires
            old(self).spec_wf(),
            r < old(self).rooms@.len(),
            j < old(self).rooms@[r as int].audio_streams@.len(),
            old(self).rooms@[r as int].audio_streams@[j as int].addr is None,
        ensures
            final(self).spec_wf(),
            final(self).users == old(self).users,
            final(self).rooms@.len() == old(self).rooms@.len(),
            forall|k: int|
                0 <= k < old(self).rooms@.len() && k != r ==> #[trigger] final(self).rooms@[k]
                    == old(self).rooms@[k],
            ({
                let pr = old(self).rooms@[r as int];
                let nr = final(self).rooms@[r as int];
                &&& nr.id == pr.id
                &&& nr.name == pr.name
                &&& nr.users == pr.users
                &&& nr.video_streams == pr.video_streams
                &&& nr.audio_streams@.len() == pr.audio_streams@.len()
                &&& (forall|m: int|
                    0 <= m < pr.audio_streams@.len() && m != j
                        ==> #[trigger] nr.audio_streams@[m] == pr.audio_streams@[m])
                &&& nr.audio_streams@[j as int].sid == pr.audio_streams@[j as int].sid
                &&& nr.audio_streams@[j as int].addr == Some(from)
            }),
    {
        let ghost pre = *self;
        let room = &mut self.rooms[r];
        let entry = &mut room.audio_streams[j];
        entry.addr = Some(from);
        proof {
            lemma_same_sids_wf(pre, *self);
        }
    }
}

/// Two states whose rooms agree on everything the invariants watch --
/// identifiers, names, members and the stream identifiers slot by slot --
/// are well-formed together; learned addresses play no part.
pub proof fn lemma_same_sids_wf(pre: ServerState, post: ServerState)
    requires
        pre.spec_wf(),
        post.users == pre.users,
        post.rooms@.len() == pre.rooms@.len(),
        forall|k: int|
            0 <= k < pre.rooms@.len() ==> {
                let a = #[trigger] post.rooms@[k];
                let b = pre.rooms@[k];
                &&& a.id == b.id
                &&& a.name == b.name
                &&& a.users == b.users
                &&& a.video_streams@.len() == b.video_streams@.len()
                &&& a.audio_streams@.len() == b.audio_streams@.len()
                &&& (forall|m: int|
                    0 <= m < b.video_streams@.len() ==> (#[trigger] a.video_streams@[m]).sid
                        == b.video_streams@[m].sid)
                &&& (forall|m: int|
                    0 <= m < b.audio_streams@.len() ==> (#[trigger] a.audio_streams@[m]).sid
                        == b.audio_streams@[m].sid)
            },
    ensures
        post.spec_wf(),
{
    assert forall|k: int| 0 <= k < post.rooms@.len() implies #[trigger] post.rooms@[k].spec_wf() by {
        let a = post.rooms@[k];
        let b = pre.rooms@[k];
        assert(b.spec_wf());
        assert(spec_names_unique(a.users@));
        assert forall|i: int, j: int|
            0 <= i < a.video_streams@.len() && 0 <= j < a.video_streams@.len()
                && #[trigger] a.video_streams@[i].sid@ == #[trigger] a.video_streams@[j].sid@ implies i
            == j by {
            assert(b.video_streams@[i].sid@ == b.video_streams@[j].sid@);
        }
        assert forall|i: int, j: int|
            0 <= i < a.audio_streams@.len() && 0 <= j < a.audio_streams@.len()
                && #[trigger] a.audio_streams@[i].sid@ == #[trigger] a.audio_streams@[j].sid@ implies i
            == j by {
            assert(b.audio_streams@[i].sid@ == b.audio_streams@[j].sid@);
        }
        assert forall|i: int|
            0 <= i < a.video_streams@.len() implies (#[trigger] a.video_streams@[i]).sid@.len()
            == ID_LEN by {
            assert(b.video_streams@[i].sid@.len() == ID_LEN);
        }
        assert forall|i: int|
            0 <= i < a.audio_streams@.len() implies (#[trigger] a.audio_streams@[i]).sid@.len()
            == ID_LEN by {
            assert(b.audio_streams@[i].sid@.len() == ID_LEN);
        }
        assert forall|i: int, j: int|
            0 <= i < a.video_streams@.len() && 0 <= j
                < a.audio_streams@.len() implies #[trigger] a.video_streams@[i].sid@
            != #[trigger] a.audio_streams@[j].sid@ by {
            assert(b.video_streams@[i].sid@ != b.audio_streams@[j].sid@);
        }
    }
    assert forall|r1: int, r2: int|
        0 <= r1 < post.rooms@.len() && 0 <= r2 < post.rooms@.len() && #[trigger] post.rooms@[
        r1].id@ == #[trigger] post.rooms@[r2].id@ implies r1 == r2 by {
        assert(pre.rooms@[r1].id@ == pre.rooms@[r2].id@);
    }
    assert forall|r1: int, r2: int|
        0 <= r1 < post.rooms@.len() && 0 <= r2 < post.rooms@.len() && #[trigger] post.rooms@[
        r1].name@ == #[trigger] post.rooms@[r2].name@ implies r1 == r2 by {
        assert(pre.rooms@[r1].name@ == pre.rooms@[r2].name@);
    }
    assert(post.spec_members_registered()) by {
        assert forall|r: int, m: int|
            0 <= r < post.rooms@.len() && 0 <= m
                < post.rooms@[r].users@.len() implies spec_contains_bytes(
            post.users@,
            #[trigger] post.rooms@[r].users@[m]@,
        ) by {
            assert(post.rooms@[r].users == pre.rooms@[r].users);
            assert(spec_contains_bytes(pre.users@, pre.rooms@[r].users@[m]@));
        }
    }
    assert(post.spec_streams_exclusive()) by {
        assert forall|r1: int, i1: int, r2: int, i2: int|
            0 <= r1 < post.rooms@.len() && 0 <= i1 < post.rooms@[r1].video_streams@.len() && 0
                <= r2 < post.rooms@.len() && 0 <= i2 < post.rooms@[r2].video_streams@.len()
                && #[trigger] post.rooms@[r1].video_streams@[i1].sid@ == #[trigger] post.rooms@[
            r2].video_streams@[i2].sid@ implies r1 == r2 && i1 == i2 by {
            assert(pre.rooms@[r1].video_streams@[i1].sid@ == pre.rooms@[r2].video_streams@[
            i2].sid@);
        }
        assert forall|r1: int, i1: int, r2: int, i2: int|
            0 <= r1 < post.rooms@.len() && 0 <= i1 < post.rooms@[r1].audio_streams@.len() && 0
                <= r2 < post.rooms@.len() && 0 <= i2 < post.rooms@[r2].audio_streams@.len()
                && #[trigger] post.rooms@[r1].audio_streams@[i1].sid@ == #[trigger] post.rooms@[
            r2].audio_streams@[i2].sid@ implies r1 == r2 && i1 == i2 by {
            assert(pre.rooms@[r1].audio_streams@[i1].sid@ == pre.rooms@[r2].audio_streams@[
            i2].sid@);
        }
        assert forall|r1: int, i1: int, r2: int, i2: int|
            0 <= r1 < post.rooms@.len() && 0 <= i1 < post.rooms@[r1].video_streams@.len() && 0
                <= r2 < post.rooms@.len() && 0 <= i2
                < post.rooms@[r2].audio_streams@.len() implies #[trigger] post.rooms@[
            r1].video_streams@[i1].sid@ != #[trigger] post.rooms@[r2].audio_streams@[i2].sid@ by {
            assert(pre.rooms@[r1].video_streams@[i1].sid@ != pre.rooms@[r2].audio_streams@[
            i2].sid@);
        }
    }
}

/// Every member of every room is a registered user: the member lists
/// never name anyone the user registry does not hold.
pub proof fn lemma_members_registered(s: ServerState)
    requires
        s.spec_wf(),
    ensures
        s.spec_members_registered(),
{
}

/// Every stream identifier lives in exactly one table of exactly one
/// room: no identifier repeats across rooms, across slots, or across the
/// video/audio divide.
pub proof fn lemma_streams_exclusive(s: ServerState)
    requires
        s.spec_wf(),
    ensures
        s.spec_streams_exclusive(),
{
}

/// The index of the entry carrying this stream identifier, if any.
pub fn find_sid(t: &Vec<StreamEntry>, sid: &[u8]) -> (r: Option<usize>)
    ensures
        match r {
            Some(i) => 0 <= i < t@.len() && t@[i as int].sid@ == sid@,
            None => !spec_table_has(t@, sid@),
        },
{
    let mut i: usize = 0;
    while i < t.len()
        invariant
            0 <= i <= t@.len(),
            forall|j: int| 0 <= j < i ==> #[trigger] t@[j].sid@ != sid@,
        decreases t@.len() - i,
    {
        if bytes_eq(t[i].sid.as_slice(), sid) {
            return Some(i);
        }
        i = i + 1;
    }
    None
}

/// Whether the table holds this stream identifier.
pub fn table_has_sid(t: &Vec<StreamEntry>, sid: &[u8]) -> (r: bool)
    ensures
        r == spec_table_has(t@, sid@),
{
    match find_sid(t, sid) {
        Some(_) => true,
        None => false,
    }
}

/// Relies on rand::fill: fills the buffer with random bytes from the
/// thread-local generator; the buffer's length is unchanged. Nothing is
/// assumed about the values.
#[verifier::external_body]
fn random_id_bytes() -> (r: Vec<u8>)
    ensures
        r@.len() == ID_LEN,
{
    let mut id = [0u8; 4];
    rand::fill(&mut id[..]);
    id.to_vec()
}

/// How often a random identifier is drawn again after a collision before
/// the attempt is reported as failed.
pub const ID_RETRY_LIMIT: u8 = 16;

/// Draws a room identifier not carried by any existing room. `None` after
/// every draw collided, which the caller reports as an internal error.
pub fn fresh_room_id(state: &ServerState) -> (r: Option<Vec<u8>>)
    ensures
        r matches Some(id) ==> id@.len() == ID_LEN && !state.spec_has_room_id(id@),
{
    let mut attempts: u8 = 0;
    while attempts < ID_RETRY_LIMIT
        invariant
            true,
        decreases ID_RETRY_LIMIT - attempts,
    {
        let id = random_id_bytes();
        match state.find_room_by_id(id.as_slice()) {
            None => {
                return Some(id);
            },
            Some(_) => {},
        }
        attempts = attempts + 1;
    }
    None
}

/// Draws a stream identifier used by no table of any room and different
/// from `exclude` (the other identifier of the same join). `None` after
/// every draw collided.
pub fn fresh_stream_id(state: &ServerState, exclude: Option<&Vec<u8>>) -> (r: Option<Vec<u8>>)
    ensures
        r matches Some(id) ==> {
            &&& id@.len() == ID_LEN
            &&& !state.spec_has_sid(id@)
            &&& (exclude matches Some(x) ==> id@ != x@)
        },
{
    let mut attempts: u8 = 0;
    while attempts < ID_RETRY_LIMIT
        invariant
            true,
        decreases ID_RETRY_LIMIT - attempts,
    {
        let id = random_id_bytes();
        let clashes_excluded = match exclude {
            Some(x) => bytes_eq(id.as_slice(), x.as_slice()),
            None => false,
        };
        if !clashes_excluded && !state.has_sid(id.as_slice()) {
            return Some(id);
        }
        attempts = attempts + 1;
    }
    None
}

} // verus!
