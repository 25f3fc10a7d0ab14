//! Inbound command payloads, one per operation of the room directory.

use vstd::prelude::*;

use crate::data::RoomID;

verus! {

#[derive(Debug)]
pub struct StartGameData {
    pub room_id: RoomID,
}

#[derive(Debug)]
pub struct EditRoomData {
    pub room_id: RoomID,
    pub game_duration: u64,
}

#[derive(Debug)]
pub struct JoinRoomData {
    pub room_id: RoomID,
}

#[derive(Debug)]
pub struct SubmitGuessData {
    pub room_id: RoomID,
    pub guess: String,
}

#[derive(Debug)]
pub struct SkipData {
    pub room_id: RoomID,
}

/// A tagged inbound command, routed to exactly one operation.
#[derive(Debug)]
pub enum Request {
    CreateRoom,
    EditRoom(EditRoomData),
    JoinRoom(JoinRoomData),
    StartGame(StartGameData),
    SubmitGuess(SubmitGuessData),
    Skip(SkipData),
}

} // verus!
