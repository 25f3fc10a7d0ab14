//! The world state: connected users, live rooms, and their invariants.

use vstd::prelude::*;

use crate::model::{AppModel, RoomModel, UserModel};

verus! {

/// Round duration a room starts with, in seconds.
pub const DEFAULT_DURATION_SEC: u64 = 5;

/// Score delta for a correct guess, in tenths of a point (+1.0).
pub const CORRECT_SCORE_TENTHS: i64 = 10;

/// Score delta for an incorrect guess, in tenths of a point (-0.2).
pub const INCORRECT_SCORE_TENTHS: i64 = -2;

/// Score delta for skipping an emote, in tenths of a point (-0.1).
pub const SKIP_SCORE_TENTHS: i64 = -1;

/// Identifier of a live room, unique over the lifetime of the directory.
#[derive(Clone, Copy, PartialEq, Eq, Structural, Debug)]
pub struct RoomID(pub u64);

/// Identifier of a connected user, assigned at registration.
#[derive(Clone, Copy, PartialEq, Eq, Structural, Debug)]
pub struct User(pub u64);

/// Per-(user, room) round progress.
///
/// `score` is kept in tenths of a point, so the fixed rewards (+1.0, -0.2,
/// -0.1) stay exact integers.  `emote` is the advancement counter: how many
/// emotes of the room's deterministic sequence this user has consumed.
#[derive(Clone, Copy, PartialEq, Eq, Structural, Debug)]
pub struct UserGameData {
    pub score: i64,
    pub emote: u32,
}

impl Default for UserGameData {
    /// A member starts with zero score and zero advancement.
    fn default() -> (r: Self)
        ensures
            r.score == 0 && r.emote == 0,
    {
        UserGameData { score: 0, emote: 0 }
    }
}

/// The identity payload the external verifier yields for a connection.
#[derive(Debug)]
pub struct TwitchUserData {
    pub id: String,
    pub login: String,
    pub display_name: String,
}

/// What the upstream identity provider returns for a credential: a list
/// of user records, the first of which is the caller's.
#[derive(Debug)]
pub struct TwitchUserResponse {
    pub data: Vec<TwitchUserData>,
}

/// The verified claim a connection presents; trusted as-is by the core.
#[derive(Debug)]
pub struct JWTClaim {
    pub data: TwitchUserData,
}

/// A registered user: its id and the claim it authenticated with.
///
/// The outbound message sink stays with the networked shell; the core only
/// names recipients by `User` id.
#[derive(Debug)]
pub struct UserData {
    pub user: User,
    pub claim: JWTClaim,
}

/// A live room: owner, roster with per-member progress, round duration and
/// the fixed seed driving its deterministic emote sequence.
///
/// The pending round-end timer is a handle of the shell; a room is "in
/// round" exactly while such a timer is armed.
#[derive(Debug)]
pub struct GameState {
    pub room_id: RoomID,
    pub room_owner: User,
    pub user_data: Vec<(User, UserGameData)>,
    pub duration_secs: u64,
    pub seed: u64,
}

/// A cloneable `GameState` "view"; enough for identification purposes.
#[derive(Clone, Copy, PartialEq, Eq, Structural, Debug)]
pub struct GameStateView {
    pub room_id: RoomID,
    pub room_owner: User,
}

/// The whole world: the session registry, the room directory, and the two
/// counters that make fresh ids.
#[derive(Debug)]
pub struct AppData {
    pub users: Vec<UserData>,
    pub game_states: Vec<GameState>,
    pub next_user_id: u64,
    pub next_room_id: u64,
}

impl TwitchUserData {
    /// Mathematical view: the three fields as character sequences.
    pub open spec fn model(&self) -> (Seq<char>, Seq<char>, Seq<char>) {
        (self.id@, self.login@, self.display_name@)
    }
}

impl UserData {
    pub open spec fn model(&self) -> UserModel {
        UserModel {
            user: self.user,
            id: self.claim.data.id@,
            login: self.claim.data.login@,
            display_name: self.claim.data.display_name@,
        }
    }
}

impl GameState {
    pub open spec fn model(&self) -> RoomModel {
        RoomModel {
            room_id: self.room_id,
            room_owner: self.room_owner,
            members: self.user_data@,
            duration_secs: self.duration_secs,
            seed: self.seed,
        }
    }

    /// A fresh room: the owner is its only member, at zero score and zero
    /// advancement.
    pub fn new(room_id: RoomID, owner_id: User, duration_secs: u64, seed: u64) -> (r: Self)
        ensures
            r.model() == RoomModel::fresh(room_id, owner_id, duration_secs, seed),
    {
        let mut user_data: Vec<(User, UserGameData)> = Vec::new();
        user_data.push((owner_id, UserGameData::default()));
        let r = GameState { room_id, room_owner: owner_id, user_data, duration_secs, seed };
        proof {
            assert(r.model().members =~= RoomModel::fresh(
                room_id,
                owner_id,
                duration_secs,
                seed,
            ).members);
            assert(r.model() =~= RoomModel::fresh(room_id, owner_id, duration_secs, seed));
        }
        r
    }
}

impl GameStateView {
    /// The identifying slice of a room's state.
    pub fn from(value: &GameState) -> (r: Self)
        ensures
            r.room_id == value.room_id,
            r.room_owner == value.room_owner,
    {
        GameStateView { room_id: value.room_id, room_owner: value.room_owner }
    }
}

/// Mathematical view of a registry slice.
pub open spec fn users_model(users: Seq<UserData>) -> Seq<UserModel> {
    users.map_values(|u: UserData| u.model())
}

/// Mathematical view of a directory slice.
pub open spec fn rooms_model(rooms: Seq<GameState>) -> Seq<RoomModel> {
    rooms.map_values(|g: GameState| g.model())
}

impl AppData {
    pub open spec fn model(&self) -> AppModel {
        AppModel {
            users: users_model(self.users@),
            rooms: rooms_model(self.game_states@),
            next_user_id: self.next_user_id,
            next_room_id: self.next_room_id,
        }
    }

    /// The world the process starts with: no users, no rooms.
    pub fn new() -> (r: Self)
        ensures
            r.model() == AppModel::init(),
            r.model().wf(),
    {
        let r = AppData {
            users: Vec::new(),
            game_states: Vec::new(),
            next_user_id: 0,
            next_room_id: 0,
        };
        proof {
            assert(r.model() =~= AppModel::init());
        }
        r
    }
}

} // verus!
