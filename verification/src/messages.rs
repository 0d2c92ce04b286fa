//! The texts of the validation errors the server reports.

use vstd::prelude::*;

use crate::byteops::{decimal_bytes, push_bytes, spec_decimal};
use vstd::string::{StrSliceExecFns, StringSliceAdditionalSpecFns};

verus! {

pub open spec fn spec_msg_username_empty() -> Seq<u8> {
    "Username cannot be empty.".spec_bytes()
}

pub open spec fn spec_msg_username_too_long() -> Seq<u8> {
    "Username must be less than or equal to 15 characters.".spec_bytes()
}

pub open spec fn spec_msg_username_bad_chars() -> Seq<u8> {
    "Username must contain only letters, numbers, underscores (_), or hyphens (-).".spec_bytes()
}

pub open spec fn spec_msg_username_taken() -> Seq<u8> {
    "Username is already taken.".spec_bytes()
}

pub open spec fn spec_msg_room_name_empty() -> Seq<u8> {
    "Room name cannot be empty".spec_bytes()
}

pub open spec fn spec_msg_room_name_too_long() -> Seq<u8> {
    "Room name must be less than or equal to 15 characters.".spec_bytes()
}

pub open spec fn spec_msg_room_name_bad_chars() -> Seq<u8> {
    "Room name must contain only letters, numbers, underscores (_), or hyphens (-).".spec_bytes()
}

pub open spec fn spec_msg_room_exists(name: Seq<u8>) -> Seq<u8> {
    "Room '".spec_bytes() + name + "' already exists".spec_bytes()
}

pub open spec fn spec_msg_room_missing(name: Seq<u8>) -> Seq<u8> {
    "Room '".spec_bytes() + name + "' does not exist".spec_bytes()
}

pub open spec fn spec_msg_room_occupied(name: Seq<u8>, members: nat) -> Seq<u8> {
    "Room '".spec_bytes() + name
        + "' cannot be deleted because it still has ".spec_bytes() + spec_decimal(members)
        + " active user(s).".spec_bytes()
}

pub open spec fn spec_msg_already_in_room() -> Seq<u8> {
    "Already in a room.".spec_bytes()
}

pub open spec fn spec_msg_unsupported(tag: u8) -> Seq<u8> {
    "Command not supported: ".spec_bytes() + spec_decimal(tag as nat)
}

pub fn msg_username_empty() -> (r: Vec<u8>)
    ensures
        r@ == spec_msg_username_empty(),
{
    "Username cannot be empty.".as_bytes_vec()
}

pub fn msg_username_too_long() -> (r: Vec<u8>)
    ensures
        r@ == spec_msg_username_too_long(),
{
    "Username must be less than or equal to 15 characters.".as_bytes_vec()
}

pub fn msg_username_bad_chars() -> (r: Vec<u8>)
    ensures
        r@ == spec_msg_username_bad_chars(),
{
    "Username must contain only letters, numbers, underscores (_), or hyphens (-).".as_bytes_vec()
}

pub fn msg_username_taken() -> (r: Vec<u8>)
    ensures
        r@ == spec_msg_username_taken(),
{
    "Username is already taken.".as_bytes_vec()
}

pub fn msg_room_name_empty() -> (r: Vec<u8>)
    ensures
        r@ == spec_msg_room_name_empty(),
{
    "Room name cannot be empty".as_bytes_vec()
}

pub fn msg_room_name_too_long() -> (r: Vec<u8>)
    ensures
        r@ == spec_msg_room_name_too_long(),
{
    "Room name must be less than or equal to 15 characters.".as_bytes_vec()
}

pub fn msg_room_name_bad_chars() -> (r: Vec<u8>)
    ensures
        r@ == spec_msg_room_name_bad_chars(),
{
    "Room name must contain only letters, numbers, underscores (_), or hyphens (-).".as_bytes_vec()
}

pub fn msg_room_exists(name: &[u8]) -> (r: Vec<u8>)
    ensures
        r@ == spec_msg_room_exists(name@),
{
    let mut m = "Room '".as_bytes_vec();
    push_bytes(&mut m, name);
    push_bytes(&mut m, "' already exists".as_bytes());
    m
}

pub fn msg_room_missing(name: &[u8]) -> (r: Vec<u8>)
    ensures
        r@ == spec_msg_room_missing(name@),
{
    let mut m = "Room '".as_bytes_vec();
    push_bytes(&mut m, name);
    push_bytes(&mut m, "' does not exist".as_bytes());
    m
}

pub fn msg_room_occupied(name: &[u8], members: u64) -> (r: Vec<u8>)
    ensures
        r@ == spec_msg_room_occupied(name@, members as nat),
{
    let mut m = "Room '".as_bytes_vec();
    push_bytes(&mut m, name);
    push_bytes(&mut m, "' cannot be deleted because it still has ".as_bytes());
    let count = decimal_bytes(members);
    push_bytes(&mut m, count.as_slice());
    push_bytes(&mut m, " active user(s).".as_bytes());
    m
}

pub fn msg_already_in_room() -> (r: Vec<u8>)
    ensures
        r@ == spec_msg_already_in_room(),
{
    "Already in a room.".as_bytes_vec()
}

pub fn msg_unsupported(tag: u8) -> (r: Vec<u8>)
    ensures
        r@ == spec_msg_unsupported(tag),
{
    let mut m = "Command not supported: ".as_bytes_vec();
    let digits = decimal_bytes(tag as u64);
    push_bytes(&mut m, digits.as_slice());
    m
}

} // verus!
