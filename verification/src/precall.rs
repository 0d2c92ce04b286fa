//! The pre-call prompt's command language.
//!
//! Between the handshake and the call the client reads lines like
//! `create room lobby` or `list users`. The command words match
//! regardless of case; a room or camera name keeps its case. The prompt
//! loop itself -- reading lines, writing frames, printing -- stays with
//! the caller, which acts on the parsed action.

use vstd::prelude::*;

use crate::byteops::bytes_eq;
use vstd::slice::slice_to_vec;
use vstd::string::{StrSliceExecFns, StringSliceAdditionalSpecFns};

verus! {

/// An upper-case ASCII letter folded to lower case; all else unchanged.
pub open spec fn spec_lower_byte(b: u8) -> u8 {
    if 65 <= b <= 90 {
        (b + 32) as u8
    } else {
        b
    }
}

/// The line with its ASCII letters folded to lower case.
pub open spec fn spec_lower(s: Seq<u8>) -> Seq<u8> {
    Seq::new(s.len(), |i: int| spec_lower_byte(s[i]))
}

/// Splitting from position `i` on, with the token read so far and the
/// tokens already finished: every space ends a token, so consecutive
/// spaces yield empty tokens.
pub open spec fn spec_split_rec(
    s: Seq<u8>,
    i: int,
    cur: Seq<u8>,
    acc: Seq<Seq<u8>>,
) -> Seq<Seq<u8>>
    decreases s.len() - i,
{
    if i < 0 || i >= s.len() {
        acc.push(cur)
    } else if s[i] == 32 {
        spec_split_rec(s, i + 1, Seq::empty(), acc.push(cur))
    } else {
        spec_split_rec(s, i + 1, cur.push(s[i]), acc)
    }
}

/// The line cut at each single space.
pub open spec fn spec_split_sp(s: Seq<u8>) -> Seq<Seq<u8>> {
    spec_split_rec(s, 0, Seq::empty(), Seq::empty())
}

/// `p` is how `s` begins.
pub open spec fn spec_has_prefix(s: Seq<u8>, p: Seq<u8>) -> bool {
    s.len() >= p.len() && s.subrange(0, p.len() as int) == p
}

/// Folds the ASCII letters of a line to lower case.
fn lower_bytes(s: &[u8]) -> (r: Vec<u8>)
    ensures
        r@ == spec_lower(s@),
{
    let mut out: Vec<u8> = Vec::new();
    let mut i: usize = 0;
    while i < s.len()
        invariant
            0 <= i <= s@.len(),
            out@.len() == i,
            forall|j: int| 0 <= j < i ==> #[trigger] out@[j] == spec_lower_byte(s@[j]),
        decreases s@.len() - i,
    {
        let b = s[i];
        out.push(
            if 65 <= b && b <= 90 {
                b + 32
            } else {
                b
            },
        );
        i = i + 1;
    }
    proof {
        assert(out@ =~= spec_lower(s@));
    }
    out
}

/// Cuts a line at each single space.
fn split_spaces(s: &[u8]) -> (r: Vec<Vec<u8>>)
    ensures
        r.deep_view() == spec_split_sp(s@),
{
    let mut acc: Vec<Vec<u8>> = Vec::new();
    let mut cur: Vec<u8> = Vec::new();
    let mut i: usize = 0;
    proof {
        assert(acc.deep_view() =~= Seq::<Seq<u8>>::empty());
    }
    while i < s.len()
        invariant
            0 <= i <= s@.len(),
            spec_split_rec(s@, i as int, cur@, acc.deep_view()) == spec_split_sp(s@),
        decreases s@.len() - i,
    {
        let b = s[i];
        if b == 32 {
            let ghost pre = acc.deep_view();
            let ghost curv = cur@;
            acc.push(cur);
            cur = Vec::new();
            proof {
                assert(acc.deep_view() =~= pre.push(curv)) by {
                    assert(acc.deep_view().len() == pre.len() + 1);
                    assert(forall|k: int|
                        0 <= k < pre.len() ==> #[trigger] acc.deep_view()[k] == acc@[k]@);
                    assert(forall|k: int| 0 <= k < pre.len() ==> #[trigger] pre[k] == acc@[k]@);
                    assert(acc.deep_view()[pre.len() as int] == acc@[pre.len() as int]@);
                }
            }
        } else {
            cur.push(b);
        }
        i = i + 1;
    }
    let ghost pre = acc.deep_view();
    let ghost done = cur@;
    acc.push(cur);
    proof {
        assert(acc.deep_view() =~= pre.push(done)) by {
            assert(acc.deep_view().len() == pre.len() + 1);
            assert(forall|k: int|
                0 <= k < pre.len() ==> #[trigger] acc.deep_view()[k] == acc@[k]@);
            assert(forall|k: int| 0 <= k < pre.len() ==> #[trigger] pre[k] == acc@[k]@);
            assert(acc.deep_view()[pre.len() as int] == acc@[pre.len() as int]@);
        }
    }
    acc
}

/// The third of exactly three space-cut tokens of the line, if the line
/// has that shape.
fn third_token(input: &[u8]) -> (r: Option<Vec<u8>>)
    ensures
        match r {
            Some(v) => spec_split_sp(input@).len() == 3 && v@ == spec_split_sp(input@)[2],
            None => spec_split_sp(input@).len() != 3,
        },
{
    let parts = split_spaces(input);
    proof {
        assert(parts.deep_view().len() == parts@.len());
    }
    if parts.len() == 3 {
        proof {
            assert(parts.deep_view()[2] == parts@[2]@);
        }
        Some(slice_to_vec(parts[2].as_slice()))
    } else {
        None
    }
}

/// What one prompt line asks for.
pub enum UserAction {
    /// An empty line: nothing happens.
    Empty,
    /// Print the command summary.
    Help,
    /// Leave the prompt and the program.
    Exit,
    /// `create room` without a usable name: print its usage.
    CreateRoomUsage,
    /// Ask the server to create this room.
    CreateRoom(Vec<u8>),
    /// `delete room` without a usable name: print its usage.
    DeleteRoomUsage,
    /// Ask the server to delete this room.
    DeleteRoom(Vec<u8>),
    /// `join room` without a usable name: print its usage.
    JoinRoomUsage,
    /// Ask the server to join this room and start the call.
    JoinRoom(Vec<u8>),
    /// Ask the server for the user list.
    ListUsers,
    /// Ask the server for the room list.
    ListRooms,
    /// Enumerate the local cameras.
    ListCameras,
    /// `switch camera` without an index: print its usage.
    SwitchCameraUsage,
    /// Switch capture to this camera, by its listed name.
    SwitchCamera(Vec<u8>),
    /// Anything else.
    Unknown,
}

/// The decision the parser owes for one (already trimmed) line: command
/// words match in any case; a three-token command carries its third
/// token, case kept, and any other shape prints the usage.
pub open spec fn spec_parsed_line(input: Seq<u8>, r: UserAction) -> bool {
    let lower = spec_lower(input);
    let parts = spec_split_sp(input);
    if input.len() == 0 {
        r is Empty
    } else if input == "exit".spec_bytes() {
        r is Exit
    } else if lower == "help".spec_bytes() {
        r is Help
    } else if lower == "create room".spec_bytes() {
        r is CreateRoomUsage
    } else if spec_has_prefix(lower, "create room ".spec_bytes()) {
        if parts.len() == 3 {
            r matches UserAction::CreateRoom(name) && name@ == parts[2]
        } else {
            r is CreateRoomUsage
        }
    } else if lower == "delete room".spec_bytes() {
        r is DeleteRoomUsage
    } else if spec_has_prefix(lower, "delete room ".spec_bytes()) {
        if parts.len() == 3 {
            r matches UserAction::DeleteRoom(name) && name@ == parts[2]
        } else {
            r is DeleteRoomUsage
        }
    } else if lower == "join room".spec_bytes() {
        r is JoinRoomUsage
    } else if spec_has_prefix(lower, "join room ".spec_bytes()) {
        if parts.len() == 3 {
            r matches UserAction::JoinRoom(name) && name@ == parts[2]
        } else {
            r is JoinRoomUsage
        }
    } else if lower == "list users".spec_bytes() {
        r is ListUsers
    } else if lower == "list rooms".spec_bytes() {
        r is ListRooms
    } else if lower == "list cameras".spec_bytes() {
        r is ListCameras
    } else if lower == "switch camera".spec_bytes() {
        r is SwitchCameraUsage
    } else if spec_has_prefix(lower, "switch camera ".spec_bytes()) {
        if parts.len() == 3 {
            r matches UserAction::SwitchCamera(name) && name@ == parts[2]
        } else {
            r is SwitchCameraUsage
        }
    } else {
        r is Unknown
    }
}

/// Whether `s` begins with `p`.
fn has_prefix(s: &[u8], p: &[u8]) -> (r: bool)
    ensures
        r == spec_has_prefix(s@, p@),
{
    if s.len() < p.len() {
        return false;
    }
    let head = vstd::slice::slice_subrange(s, 0, p.len());
    bytes_eq(head, p)
}

/// The prompt shown between handshake and call.
pub struct PreCallInterface;

impl PreCallInterface {
    /// Reads one trimmed prompt line into the action it asks for.
    pub fn parse_command(input: &[u8]) -> (r: UserAction)
        ensures
            spec_parsed_line(input@, r),
    {
        if input.len() == 0 {
            return UserAction::Empty;
        }
        if bytes_eq(input, "exit".as_bytes()) {
            return UserAction::Exit;
        }
        let lower = lower_bytes(input);
        let low = lower.as_slice();
        if bytes_eq(low, "help".as_bytes()) {
            return UserAction::Help;
        }
        if bytes_eq(low, "create room".as_bytes()) {
            return UserAction::CreateRoomUsage;
        }
        if has_prefix(low, "create room ".as_bytes()) {
            return match third_token(input) {
                Some(name) => UserAction::CreateRoom(name),
                None => UserAction::CreateRoomUsage,
            };
        }
        if bytes_eq(low, "delete room".as_bytes()) {
            return UserAction::DeleteRoomUsage;
        }
        if has_prefix(low, "delete room ".as_bytes()) {
            return match third_token(input) {
                Some(name) => UserAction::DeleteRoom(name),
                None => UserAction::DeleteRoomUsage,
            };
        }
        if bytes_eq(low, "join room".as_bytes()) {
            return UserAction::JoinRoomUsage;
        }
        if has_prefix(low, "join room ".as_bytes()) {
            return match third_token(input) {
                Some(name) => UserAction::JoinRoom(name),
                None => UserAction::JoinRoomUsage,
            };
        }
        if bytes_eq(low, "list users".as_bytes()) {
            return UserAction::ListUsers;
        }
        if bytes_eq(low, "list rooms".as_bytes()) {
            return UserAction::ListRooms;
        }
        if bytes_eq(low, "list cameras".as_bytes()) {
            return UserAction::ListCameras;
        }
        if bytes_eq(low, "switch camera".as_bytes()) {
            return UserAction::SwitchCameraUsage;
        }
        if has_prefix(low, "switch camera ".as_bytes()) {
            return match third_token(input) {
                Some(name) => UserAction::SwitchCamera(name),
                None => UserAction::SwitchCameraUsage,
            };
        }
        UserAction::Unknown
    }
}

} // verus!
