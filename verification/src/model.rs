//! The mathematical model of the world, and the invariants the transitions
//! preserve.
//!
//! Every executable type of the library has a `model()` into the ghost types
//! here; every transition's contract is stated over these models.

use vstd::prelude::*;

use crate::data::{
    RoomID, User, UserGameData, CORRECT_SCORE_TENTHS, DEFAULT_DURATION_SEC,
    INCORRECT_SCORE_TENTHS, SKIP_SCORE_TENTHS,
};
use crate::responses::ErrorDataType;
use crate::sequencer::{all_masked, guess_matches, lower_of, masked, seeded_choice};

verus! {

/// Mathematical view of a catalog entry: its name and URL as character
/// sequences.
#[verifier::ext_equal]
pub struct EmoteModel {
    pub name: Seq<char>,
    pub url: Seq<char>,
}

/// Mathematical view of an outbound message.
#[verifier::ext_equal]
pub enum MsgModel {
    NewUser { user_id: User },
    RoomJoin { room_id: RoomID, is_owner: bool, player_list: Seq<Seq<char>> },
    Emote { matched_chars: Seq<char>, url: Seq<char> },
    GuessResponse { matched_chars: Seq<char>, score: i64 },
    GameStarted,
    GameOver { new_room_id: RoomID },
    GameUpdate { scores: Seq<(Seq<char>, i64)> },
    Error { error_type: ErrorDataType, error_msg: Seq<char> },
}

/// Mathematical view of an action handed to the shell.
#[verifier::ext_equal]
pub enum ActModel {
    Send { to: User, msg: MsgModel },
    ScheduleRoundEnd { room_id: RoomID, duration_secs: u64 },
}

/// A registered user: its id and the fields of the verified claim.
#[verifier::ext_equal]
pub struct UserModel {
    pub user: User,
    pub id: Seq<char>,
    pub login: Seq<char>,
    pub display_name: Seq<char>,
}

/// A live room.
#[verifier::ext_equal]
pub struct RoomModel {
    pub room_id: RoomID,
    pub room_owner: User,
    pub members: Seq<(User, UserGameData)>,
    pub duration_secs: u64,
    pub seed: u64,
}

/// The whole world: session registry, room directory, id counters.
#[verifier::ext_equal]
pub struct AppModel {
    pub users: Seq<UserModel>,
    pub rooms: Seq<RoomModel>,
    pub next_user_id: u64,
    pub next_room_id: u64,
}

impl RoomModel {
    /// A just-created room: the owner alone, at zero.
    pub open spec fn fresh(room_id: RoomID, owner: User, duration_secs: u64, seed: u64) -> RoomModel {
        RoomModel {
            room_id,
            room_owner: owner,
            members: seq![(owner, UserGameData { score: 0, emote: 0 })],
            duration_secs,
            seed,
        }
    }

    pub open spec fn has_member(self, u: User) -> bool {
        exists|k: int| 0 <= k < self.members.len() && self.members[k].0 == u
    }

    /// Index of `u` in the roster; meaningful only when `has_member(u)`.
    pub open spec fn member_index(self, u: User) -> int {
        choose|k: int| 0 <= k < self.members.len() && self.members[k].0 == u
    }

    pub open spec fn member_data(self, u: User) -> UserGameData {
        self.members[self.member_index(u)].1
    }

    /// The roster with `u`'s entry (if any) removed, order kept.
    pub open spec fn remove_member(self, u: User) -> RoomModel {
        RoomModel {
            members: self.members.remove(self.member_index(u)),
            ..self
        }
    }

    /// The roster with `u`'s progress replaced, in place.
    pub open spec fn with_member_data(self, u: User, d: UserGameData) -> RoomModel {
        RoomModel {
            members: self.members.update(self.member_index(u), (u, d)),
            ..self
        }
    }

    /// Member ids are distinct, and the owner is always a member: no code
    /// path leaves a room empty.
    pub open spec fn wf(self) -> bool {
        &&& forall|i: int, j: int|
            0 <= i < j < self.members.len() ==> self.members[i].0 != self.members[j].0
        &&& self.has_member(self.room_owner)
    }
}

/// No two entries of a registry slice share a user id.
pub open spec fn users_distinct(users: Seq<UserModel>) -> bool {
    forall|i: int, j: int| 0 <= i < j < users.len() ==> users[i].user != users[j].user
}

/// No two rooms of a directory slice share an id.
pub open spec fn rooms_distinct(rooms: Seq<RoomModel>) -> bool {
    forall|i: int, j: int| 0 <= i < j < rooms.len() ==> rooms[i].room_id != rooms[j].room_id
}

/// Whether a user id stands in a registry slice.
pub open spec fn user_in(users: Seq<UserModel>, u: User) -> bool {
    exists|k: int| 0 <= k < users.len() && users[k].user == u
}

/// Position of a user id in a registry slice; meaningful only when
/// `user_in`.
pub open spec fn user_pos(users: Seq<UserModel>, u: User) -> int {
    choose|k: int| 0 <= k < users.len() && users[k].user == u
}

/// Display name of a registered user; meaningful only when `user_in`.
pub open spec fn login_in(users: Seq<UserModel>, u: User) -> Seq<char> {
    users[user_pos(users, u)].login
}

impl AppModel {
    /// The world the process starts with.
    pub open spec fn init() -> AppModel {
        AppModel { users: Seq::empty(), rooms: Seq::empty(), next_user_id: 0, next_room_id: 0 }
    }

    pub open spec fn has_user(self, u: User) -> bool {
        user_in(self.users, u)
    }

    pub open spec fn user_index(self, u: User) -> int {
        user_pos(self.users, u)
    }

    /// Display name of a registered user; meaningful only when `has_user(u)`.
    pub open spec fn login_of(self, u: User) -> Seq<char> {
        login_in(self.users, u)
    }

    pub open spec fn has_room(self, rid: RoomID) -> bool {
        exists|k: int| 0 <= k < self.rooms.len() && self.rooms[k].room_id == rid
    }

    pub open spec fn room_index(self, rid: RoomID) -> int {
        choose|k: int| 0 <= k < self.rooms.len() && self.rooms[k].room_id == rid
    }

    /// The room of that id; meaningful only when `has_room(rid)`.
    pub open spec fn room(self, rid: RoomID) -> RoomModel {
        self.rooms[self.room_index(rid)]
    }

    /// Distinct user ids, below the allocation counter.
    pub open spec fn users_wf(self) -> bool {
        &&& users_distinct(self.users)
        &&& forall|i: int| 0 <= i < self.users.len() ==> (#[trigger] self.users[i]).user.0
            < self.next_user_id
    }

    /// Distinct room ids, below the allocation counter, each room well
    /// formed.
    pub open spec fn rooms_wf(self) -> bool {
        &&& rooms_distinct(self.rooms)
        &&& forall|i: int| 0 <= i < self.rooms.len() ==> (#[trigger] self.rooms[i]).room_id.0
            < self.next_room_id
        &&& forall|i: int| 0 <= i < self.rooms.len() ==> (#[trigger] self.rooms[i]).wf()
    }

    /// The invariant every transition preserves.
    pub open spec fn wf(self) -> bool {
        self.users_wf() && self.rooms_wf()
    }

    /// The directory with the room of id `rid` replaced; meaningful only
    /// when `has_room(rid)`.
    pub open spec fn with_room(self, rid: RoomID, r2: RoomModel) -> AppModel {
        AppModel { rooms: self.rooms.update(self.room_index(rid), r2), ..self }
    }

    /// Room creation: silently refused for an unregistered owner; otherwise
    /// a fresh id is allocated and a single-member room appended, seeded
    /// with `seed` and at the default duration.
    pub open spec fn create_room(self, owner: User, seed: u64) -> (AppModel, Option<RoomID>) {
        if !self.has_user(owner) {
            (self, None)
        } else {
            let rid = RoomID(self.next_room_id);
            let room = RoomModel::fresh(rid, owner, DEFAULT_DURATION_SEC, seed);
            (
                AppModel {
                    rooms: self.rooms.push(room),
                    next_room_id: (self.next_room_id + 1) as u64,
                    ..self
                },
                Some(rid),
            )
        }
    }

    /// Room creation as the command handler performs it: on success the
    /// creator alone gets the new room's roster broadcast.
    pub open spec fn handle_create_room(self, u: User, seed: u64) -> (AppModel, Seq<ActModel>) {
        let (m2, rid) = self.create_room(u, seed);
        match rid {
            Option::None => (m2, Seq::empty()),
            Option::Some(r) => (
                m2,
                seq![
                    send_act(
                        u,
                        MsgModel::RoomJoin {
                            room_id: r,
                            is_owner: true,
                            player_list: seq![login_in(self.users, u)],
                        },
                    ),
                ],
            ),
        }
    }

    /// Registration: a fresh id is assigned, the claim stored, and the new
    /// user greeted.  Always succeeds.
    pub open spec fn create_user(
        self,
        id: Seq<char>,
        login: Seq<char>,
        display_name: Seq<char>,
    ) -> (AppModel, User, Seq<ActModel>) {
        let u = User(self.next_user_id);
        let m2 = AppModel {
            users: self.users.push(UserModel { user: u, id, login, display_name }),
            next_user_id: (self.next_user_id + 1) as u64,
            ..self
        };
        (m2, u, seq![send_act(u, MsgModel::NewUser { user_id: u })])
    }

    /// Disconnect: the first room the user owns (in directory order), if
    /// any, is dissolved outright, and the user leaves the registry.  Other
    /// memberships go stale; sends to a removed user are no-ops anyway.
    pub open spec fn delete_user(self, u: User) -> AppModel {
        let users2 = if self.has_user(u) {
            self.users.remove(self.user_index(u))
        } else {
            self.users
        };
        AppModel { users: users2, rooms: remove_first_owned(self.rooms, u), ..self }
    }

    /// Duration edit: a no-op without a registered caller and a live room;
    /// otherwise the stored duration is replaced, effective from the next
    /// round start.  Ownership is not required of the caller.
    pub open spec fn edit_room(self, u: User, rid: RoomID, game_duration: u64) -> AppModel {
        if !self.has_user(u) || !self.has_room(rid) {
            self
        } else {
            self.with_room(rid, RoomModel { duration_secs: game_duration, ..self.room(rid) })
        }
    }

    /// Full departure of `u` from every room it occupies: rooms it owns are
    /// dissolved (evicted co-members told the room disbanded), other
    /// memberships are removed (remaining members told the new roster).
    pub open spec fn leave_all(self, u: User) -> (AppModel, Seq<ActModel>) {
        if !self.has_user(u) {
            (self, Seq::empty())
        } else {
            (
                AppModel { rooms: leave_rooms_after(self.rooms, u), ..self },
                leave_rooms_acts(self.users, self.rooms, u),
            )
        }
    }

    /// Join: refused (with a user-visible error) if the target room is
    /// absent; otherwise the user first fully departs its rooms, then
    /// enters the target at zero, and the whole new roster is broadcast to
    /// every member.  If the departure dissolved the target itself (the
    /// user owned it), the join is abandoned.
    pub open spec fn join_room(self, u: User, rid: RoomID) -> (AppModel, Seq<ActModel>) {
        if !self.has_user(u) {
            (self, Seq::empty())
        } else if !self.has_room(rid) {
            (self, seq![send_act(u, join_failed_msg())])
        } else {
            let (m1, acts1) = self.leave_all(u);
            if !m1.has_room(rid) {
                (m1, acts1)
            } else {
                let r2 = RoomModel {
                    members: m1.room(rid).members.push(
                        (u, UserGameData { score: 0, emote: 0 }),
                    ),
                    ..m1.room(rid)
                };
                let m2 = m1.with_room(rid, r2);
                (m2, acts1 + roster_acts(m2.users, r2))
            }
        }
    }

    /// Start: a no-op without a registered caller and a live room.  The
    /// round-end timer is (re)armed for the stored duration whoever calls;
    /// only an owner's call also pushes every member its current emote.
    pub open spec fn start_game(
        self,
        u: User,
        rid: RoomID,
        catalog: Seq<EmoteModel>,
    ) -> Seq<ActModel> {
        if !self.has_user(u) || !self.has_room(rid) {
            Seq::empty()
        } else {
            let r = self.room(rid);
            let sched = seq![
                ActModel::ScheduleRoundEnd { room_id: rid, duration_secs: r.duration_secs },
            ];
            if r.room_owner == u {
                sched + emote_push_acts(catalog, r.seed, r.members)
            } else {
                sched
            }
        }
    }

    /// Guess: a no-op without a registered caller, a live room and a
    /// membership.  The member's target is the seeded draw at its current
    /// advancement.  A case-insensitive full match rewards +1.0 (in
    /// tenths), advances the counter, answers with the fully revealed
    /// comparison, pushes the next emote and broadcasts the scoreboard; a
    /// mismatch costs 0.2, leaves the counter, and answers the guesser
    /// alone with the masked comparison.
    pub open spec fn submit_guess(
        self,
        u: User,
        rid: RoomID,
        guess: Seq<char>,
        catalog: Seq<EmoteModel>,
    ) -> (AppModel, Seq<ActModel>) {
        if !self.has_user(u) || !self.has_room(rid) || !self.room(rid).has_member(u) {
            (self, Seq::empty())
        } else {
            let r = self.room(rid);
            let d = r.member_data(u);
            let target = catalog[seeded_choice(r.seed, catalog.len() as int, d.emote as int)];
            let mask = masked(lower_of(guess), lower_of(target.name));
            if guess_matches(guess, target.name) {
                let d2 = UserGameData {
                    score: (d.score + CORRECT_SCORE_TENTHS) as i64,
                    emote: (d.emote + 1) as u32,
                };
                let r2 = r.with_member_data(u, d2);
                let m2 = self.with_room(rid, r2);
                let acts = seq![
                    send_act(
                        u,
                        MsgModel::GuessResponse { matched_chars: mask, score: d2.score },
                    ),
                    send_act(u, emote_msg(catalog, r.seed, d2.emote)),
                ] + game_update_acts(self.users, r2);
                (m2, acts)
            } else {
                let d2 = UserGameData {
                    score: (d.score + INCORRECT_SCORE_TENTHS) as i64,
                    emote: d.emote,
                };
                let m2 = self.with_room(rid, r.with_member_data(u, d2));
                (
                    m2,
                    seq![
                        send_act(
                            u,
                            MsgModel::GuessResponse { matched_chars: mask, score: d2.score },
                        ),
                    ],
                )
            }
        }
    }

    /// Skip: a no-op without a registered caller, a live room and a
    /// membership.  Costs 0.1 (in tenths), advances the counter, answers
    /// the requester alone with an empty mask and the new score, then
    /// pushes the requester its next emote.
    pub open spec fn skip(
        self,
        u: User,
        rid: RoomID,
        catalog: Seq<EmoteModel>,
    ) -> (AppModel, Seq<ActModel>) {
        if !self.has_user(u) || !self.has_room(rid) || !self.room(rid).has_member(u) {
            (self, Seq::empty())
        } else {
            let r = self.room(rid);
            let d = r.member_data(u);
            let d2 = UserGameData {
                score: (d.score + SKIP_SCORE_TENTHS) as i64,
                emote: (d.emote + 1) as u32,
            };
            let m2 = self.with_room(rid, r.with_member_data(u, d2));
            let acts = seq![
                send_act(
                    u,
                    MsgModel::GuessResponse { matched_chars: Seq::empty(), score: d2.score },
                ),
                send_act(u, emote_msg(catalog, r.seed, d2.emote)),
            ];
            (m2, acts)
        }
    }

    /// The emote push for one member of a live room: nothing if the room
    /// or the membership is gone, else that member's current target.
    pub open spec fn send_random_emote(
        self,
        u: User,
        rid: RoomID,
        catalog: Seq<EmoteModel>,
    ) -> Seq<ActModel> {
        if !self.has_room(rid) || !self.room(rid).has_member(u) {
            Seq::empty()
        } else {
            seq![
                send_act(
                    u,
                    emote_msg(
                        catalog,
                        self.room(rid).seed,
                        self.room(rid).member_data(u).emote,
                    ),
                ),
            ]
        }
    }

    /// The scoreboard broadcast of a live room; nothing if the room is
    /// gone.
    pub open spec fn inform_room_game_state(self, rid: RoomID) -> Seq<ActModel> {
        if !self.has_room(rid) {
            Seq::empty()
        } else {
            game_update_acts(self.users, self.room(rid))
        }
    }

    /// The emote pushes of a live room's whole roster; nothing if the room
    /// is gone.
    pub open spec fn send_random_emote_to_room(
        self,
        rid: RoomID,
        catalog: Seq<EmoteModel>,
    ) -> Seq<ActModel> {
        if !self.has_room(rid) {
            Seq::empty()
        } else {
            emote_push_acts(catalog, self.room(rid).seed, self.room(rid).members)
        }
    }

    /// The machine limits under which a guess or a skip is free of
    /// overflow: one more scoring step fits the member's score and
    /// advancement counter.
    pub open spec fn score_step_ok(self, u: User, rid: RoomID) -> bool {
        self.has_room(rid) && self.room(rid).has_member(u) ==> {
            let d = self.room(rid).member_data(u);
            &&& d.score + CORRECT_SCORE_TENTHS <= i64::MAX
            &&& d.score + INCORRECT_SCORE_TENTHS >= i64::MIN
            &&& d.score + SKIP_SCORE_TENTHS >= i64::MIN
            &&& d.emote < u32::MAX
        }
    }

    /// Round end, fired by the timer: against an absent room id it is a
    /// no-op that produces nothing.  Otherwise the room is removed, a
    /// brand-new room (fresh id, seed `seed`) is created for the same
    /// owner, and every former member is told the new room's id.
    pub open spec fn game_end(self, rid: RoomID, seed: u64) -> (AppModel, Seq<ActModel>) {
        if !self.has_room(rid) {
            (self, Seq::empty())
        } else {
            let r = self.room(rid);
            let m1 = AppModel { rooms: self.rooms.remove(self.room_index(rid)), ..self };
            let (m2, newrid) = m1.create_room(r.room_owner, seed);
            match newrid {
                Option::None => (m2, Seq::empty()),
                Option::Some(nrid) => (
                    m2,
                    Seq::new(
                        r.members.len(),
                        |i: int|
                            send_act(r.members[i].0, MsgModel::GameOver { new_room_id: nrid }),
                    ),
                ),
            }
        }
    }
}

/// `ActModel::Send`, briefly.
pub open spec fn send_act(to: User, msg: MsgModel) -> ActModel {
    ActModel::Send { to, msg }
}

/// The eviction notice co-members get when a room's owner departs.
pub open spec fn disband_msg() -> MsgModel {
    MsgModel::Error {
        error_type: ErrorDataType::RoomDisbanded,
        error_msg: "room owner left room"@,
    }
}

/// The user-visible failure of a join against an absent room.
pub open spec fn join_failed_msg() -> MsgModel {
    MsgModel::Error {
        error_type: ErrorDataType::RoomJoinFailed,
        error_msg: "Room does not exist"@,
    }
}

/// Display names of a roster, in roster order, members that have left the
/// registry skipped.
pub open spec fn roster_logins(
    users: Seq<UserModel>,
    members: Seq<(User, UserGameData)>,
) -> Seq<Seq<char>>
    decreases members.len(),
{
    if members.len() == 0 {
        Seq::empty()
    } else {
        roster_logins(users, members.drop_last()) + (if user_in(users, members.last().0) {
            seq![login_in(users, members.last().0)]
        } else {
            Seq::empty()
        })
    }
}

/// Display name and score (in tenths) of a roster, in roster order, members
/// that have left the registry skipped.
pub open spec fn scoreboard(
    users: Seq<UserModel>,
    members: Seq<(User, UserGameData)>,
) -> Seq<(Seq<char>, i64)>
    decreases members.len(),
{
    if members.len() == 0 {
        Seq::empty()
    } else {
        scoreboard(users, members.drop_last()) + (if user_in(users, members.last().0) {
            seq![(login_in(users, members.last().0), members.last().1.score)]
        } else {
            Seq::empty()
        })
    }
}

/// The roster broadcast of a room: every member is told the room id,
/// whether it is the owner, and the full list of member display names.
pub open spec fn roster_acts(users: Seq<UserModel>, r: RoomModel) -> Seq<ActModel> {
    Seq::new(
        r.members.len(),
        |i: int|
            send_act(
                r.members[i].0,
                MsgModel::RoomJoin {
                    room_id: r.room_id,
                    is_owner: r.members[i].0 == r.room_owner,
                    player_list: roster_logins(users, r.members),
                },
            ),
    )
}

/// The eviction notices of a dissolving room: every member but the
/// departing owner is told.
pub open spec fn disband_acts(members: Seq<(User, UserGameData)>, leaver: User) -> Seq<ActModel>
    decreases members.len(),
{
    if members.len() == 0 {
        Seq::empty()
    } else {
        disband_acts(members.drop_last(), leaver) + (if members.last().0 == leaver {
            Seq::empty()
        } else {
            seq![send_act(members.last().0, disband_msg())]
        })
    }
}

/// The emote push for one member: the seeded draw at advancement `adv`,
/// masked in full, with the emote's image URL.
pub open spec fn emote_msg(catalog: Seq<EmoteModel>, seed: u64, adv: u32) -> MsgModel {
    let e = catalog[seeded_choice(seed, catalog.len() as int, adv as int)];
    MsgModel::Emote { matched_chars: all_masked(e.name.len()), url: e.url }
}

/// The emote pushes of a whole roster, each at that member's own
/// advancement.
pub open spec fn emote_push_acts(
    catalog: Seq<EmoteModel>,
    seed: u64,
    members: Seq<(User, UserGameData)>,
) -> Seq<ActModel> {
    Seq::new(
        members.len(),
        |i: int| send_act(members[i].0, emote_msg(catalog, seed, members[i].1.emote)),
    )
}

/// The scoreboard broadcast of a room: every member gets the same board.
pub open spec fn game_update_acts(users: Seq<UserModel>, r: RoomModel) -> Seq<ActModel> {
    Seq::new(
        r.members.len(),
        |i: int|
            send_act(
                r.members[i].0,
                MsgModel::GameUpdate { scores: scoreboard(users, r.members) },
            ),
    )
}

/// A room after `u`'s departure: unchanged unless `u` was a member.
pub open spec fn leave_member(r: RoomModel, u: User) -> RoomModel {
    if r.has_member(u) {
        r.remove_member(u)
    } else {
        r
    }
}

/// The directory after `u`'s full departure: rooms `u` owned are gone, the
/// others keep their order, with `u`'s membership (if any) removed.
pub open spec fn leave_rooms_after(rooms: Seq<RoomModel>, u: User) -> Seq<RoomModel>
    decreases rooms.len(),
{
    if rooms.len() == 0 {
        Seq::empty()
    } else {
        leave_rooms_after(rooms.drop_last(), u) + (if rooms.last().room_owner == u {
            Seq::empty()
        } else {
            seq![leave_member(rooms.last(), u)]
        })
    }
}

/// What one room's departure handling tells its members: eviction notices
/// if `u` owned it, the updated roster if `u` merely left it, nothing
/// otherwise.
pub open spec fn room_leave_acts(users: Seq<UserModel>, r: RoomModel, u: User) -> Seq<ActModel> {
    if r.room_owner == u {
        disband_acts(r.members, u)
    } else if r.has_member(u) {
        roster_acts(users, r.remove_member(u))
    } else {
        Seq::empty()
    }
}

/// The notifications of `u`'s full departure, in directory order.
pub open spec fn leave_rooms_acts(
    users: Seq<UserModel>,
    rooms: Seq<RoomModel>,
    u: User,
) -> Seq<ActModel>
    decreases rooms.len(),
{
    if rooms.len() == 0 {
        Seq::empty()
    } else {
        leave_rooms_acts(users, rooms.drop_last(), u) + room_leave_acts(users, rooms.last(), u)
    }
}

/// How many rooms of a directory slice hold `v` in their roster.
pub open spec fn member_count(rooms: Seq<RoomModel>, v: User) -> int
    decreases rooms.len(),
{
    if rooms.len() == 0 {
        0
    } else {
        member_count(rooms.drop_last(), v) + if rooms.last().has_member(v) {
            1int
        } else {
            0int
        }
    }
}

/// Replacing one room changes the membership count of `v` by exactly the
/// difference at that position.
pub proof fn lemma_member_count_update(rooms: Seq<RoomModel>, x: int, r2: RoomModel, v: User)
    requires
        0 <= x < rooms.len(),
    ensures
        member_count(rooms.update(x, r2), v) == member_count(rooms, v) - (if rooms[x].has_member(
            v,
        ) {
            1int
        } else {
            0int
        }) + (if r2.has_member(v) {
            1int
        } else {
            0int
        }),
    decreases rooms.len(),
{
    let up = rooms.update(x, r2);
    if x == rooms.len() - 1 {
        assert(up.drop_last() =~= rooms.drop_last());
        assert(up.last() == r2);
    } else {
        assert(up.drop_last() =~= rooms.drop_last().update(x, r2));
        assert(up.last() == rooms.last());
        lemma_member_count_update(rooms.drop_last(), x, r2, v);
    }
}

/// A directory none of whose rooms holds `v` counts zero for `v`.
pub proof fn lemma_member_count_zero(rooms: Seq<RoomModel>, v: User)
    requires
        forall|i: int| 0 <= i < rooms.len() ==> !(#[trigger] rooms[i]).has_member(v),
    ensures
        member_count(rooms, v) == 0,
    decreases rooms.len(),
{
    if rooms.len() > 0 {
        assert forall|i: int|
            0 <= i < rooms.drop_last().len() implies !(#[trigger] rooms.drop_last()[i]).has_member(
            v,
        ) by {
            assert(rooms.drop_last()[i] == rooms[i]);
        }
        lemma_member_count_zero(rooms.drop_last(), v);
        assert(!rooms.last().has_member(v));
    }
}

/// Whoever stands in a roster after a member's removal stood in it before.
pub proof fn lemma_remove_member_keeps_only_members(r: RoomModel, u: User, v: User)
    requires
        r.remove_member(u).has_member(v),
        r.has_member(u),
    ensures
        r.has_member(v),
{
    let i = r.member_index(u);
    let ms2 = r.remove_member(u).members;
    let k = choose|k: int| 0 <= k < ms2.len() && ms2[k].0 == v;
    let k2: int = if k < i { k } else { k + 1 };
    assert(ms2[k] == r.members[k2]);
}

/// A full departure of `u` never raises anyone's membership count.
pub proof fn lemma_leave_rooms_after_count(rooms: Seq<RoomModel>, u: User, v: User)
    ensures
        member_count(leave_rooms_after(rooms, u), v) <= member_count(rooms, v),
        member_count(leave_rooms_after(rooms, u), v) >= 0,
    decreases rooms.len(),
{
    if rooms.len() == 0 {
    } else {
        lemma_leave_rooms_after_count(rooms.drop_last(), u, v);
        let last = rooms.last();
        let res = leave_rooms_after(rooms, u);
        let res0 = leave_rooms_after(rooms.drop_last(), u);
        if last.room_owner == u {
            assert(res =~= res0 + Seq::<RoomModel>::empty());
            assert(res =~= res0);
        } else {
            let l2 = leave_member(last, u);
            assert(res =~= res0.push(l2));
            assert(res.drop_last() =~= res0);
            assert(res.last() == l2);
            if l2.has_member(v) && !last.has_member(v) {
                lemma_remove_member_keeps_only_members(last, u, v);
            }
        }
    }
}
pub open spec fn remove_first_owned(rooms: Seq<RoomModel>, u: User) -> Seq<RoomModel>
    decreases rooms.len(),
{
    if rooms.len() == 0 {
        rooms
    } else if rooms.first().room_owner == u {
        rooms.drop_first()
    } else {
        seq![rooms.first()] + remove_first_owned(rooms.drop_first(), u)
    }
}

/// With distinct user ids, the position of a user is the index where it
/// stands.
pub proof fn lemma_user_pos(users: Seq<UserModel>, u: User, i: int)
    requires
        users_distinct(users),
        0 <= i < users.len(),
        users[i].user == u,
    ensures
        user_in(users, u),
        user_pos(users, u) == i,
{
    assert(user_in(users, u));
    let k = user_pos(users, u);
    if k != i {
        if k < i {
            assert(users[k].user != users[i].user);
        } else {
            assert(users[i].user != users[k].user);
        }
    }
}

/// With distinct user ids, the index of a user is the position where it
/// stands.
pub proof fn lemma_user_index(m: AppModel, u: User, i: int)
    requires
        m.users_wf(),
        0 <= i < m.users.len(),
        m.users[i].user == u,
    ensures
        m.has_user(u),
        m.user_index(u) == i,
{
    lemma_user_pos(m.users, u, i);
}

/// With distinct room ids, the index of a room is the position where it
/// stands.
pub proof fn lemma_room_index(m: AppModel, rid: RoomID, i: int)
    requires
        m.rooms_wf(),
        0 <= i < m.rooms.len(),
        m.rooms[i].room_id == rid,
    ensures
        m.has_room(rid),
        m.room_index(rid) == i,
{
    assert(m.has_room(rid));
    let k = m.room_index(rid);
    if k != i {
        if k < i {
            assert(m.rooms[k].room_id != m.rooms[i].room_id);
        } else {
            assert(m.rooms[i].room_id != m.rooms[k].room_id);
        }
    }
}

/// With distinct member ids, the index of a member is the position where it
/// stands.
pub proof fn lemma_member_index(r: RoomModel, u: User, i: int)
    requires
        r.wf(),
        0 <= i < r.members.len(),
        r.members[i].0 == u,
    ensures
        r.has_member(u),
        r.member_index(u) == i,
{
    assert(r.has_member(u));
    let k = r.member_index(u);
    if k != i {
        if k < i {
            assert(r.members[k].0 != r.members[i].0);
        } else {
            assert(r.members[i].0 != r.members[k].0);
        }
    }
}

/// Removing a registry entry keeps the world invariant.
pub proof fn lemma_wf_users_remove(m: AppModel, i: int)
    requires
        m.wf(),
        0 <= i < m.users.len(),
    ensures
        (AppModel { users: m.users.remove(i), ..m }).wf(),
{
    let users2 = m.users.remove(i);
    assert forall|a: int, b: int| 0 <= a < b < users2.len() implies users2[a].user
        != users2[b].user by {
        let a2: int = if a < i { a } else { a + 1 };
        let b2: int = if b < i { b } else { b + 1 };
        assert(users2[a] == m.users[a2]);
        assert(users2[b] == m.users[b2]);
    }
    assert forall|a: int| 0 <= a < users2.len() implies (#[trigger] users2[a]).user.0
        < m.next_user_id by {
        let a2: int = if a < i { a } else { a + 1 };
        assert(users2[a] == m.users[a2]);
    }
}

/// Removing a room keeps the world invariant.
pub proof fn lemma_wf_rooms_remove(m: AppModel, i: int)
    requires
        m.wf(),
        0 <= i < m.rooms.len(),
    ensures
        (AppModel { rooms: m.rooms.remove(i), ..m }).wf(),
{
    let rooms2 = m.rooms.remove(i);
    assert forall|a: int, b: int| 0 <= a < b < rooms2.len() implies rooms2[a].room_id
        != rooms2[b].room_id by {
        let a2: int = if a < i { a } else { a + 1 };
        let b2: int = if b < i { b } else { b + 1 };
        assert(rooms2[a] == m.rooms[a2]);
        assert(rooms2[b] == m.rooms[b2]);
    }
    assert forall|a: int| 0 <= a < rooms2.len() implies (#[trigger] rooms2[a]).room_id.0
        < m.next_room_id && rooms2[a].wf() by {
        let a2: int = if a < i { a } else { a + 1 };
        assert(rooms2[a] == m.rooms[a2]);
        assert(m.rooms[a2].wf());
    }
}

/// Registration keeps the world invariant: the fresh id is above every
/// registered user's id.
pub proof fn lemma_create_user_preserves_wf(
    m: AppModel,
    id: Seq<char>,
    login: Seq<char>,
    display_name: Seq<char>,
)
    requires
        m.wf(),
        m.next_user_id < u64::MAX,
    ensures
        m.create_user(id, login, display_name).0.wf(),
{
    let m2 = m.create_user(id, login, display_name).0;
    assert forall|a: int, b: int| 0 <= a < b < m2.users.len() implies m2.users[a].user
        != m2.users[b].user by {
        if b == m2.users.len() - 1 {
            assert(m2.users[a] == m.users[a]);
            assert(m.users[a].user.0 < m.next_user_id);
        }
    }
}

/// Where the first room `u` owns stands at index `i`, the departure is
/// exactly the removal of that index.
pub proof fn lemma_remove_first_owned_at(rooms: Seq<RoomModel>, u: User, i: int)
    requires
        0 <= i < rooms.len(),
        rooms[i].room_owner == u,
        forall|j: int| 0 <= j < i ==> rooms[j].room_owner != u,
    ensures
        remove_first_owned(rooms, u) == rooms.remove(i),
    decreases i,
{
    if i == 0 {
        assert(remove_first_owned(rooms, u) =~= rooms.remove(0));
    } else {
        lemma_remove_first_owned_at(rooms.drop_first(), u, i - 1);
        assert(remove_first_owned(rooms, u) =~= rooms.remove(i));
    }
}

/// Where `u` owns no room, the departure changes nothing.
pub proof fn lemma_remove_first_owned_none(rooms: Seq<RoomModel>, u: User)
    requires
        forall|j: int| 0 <= j < rooms.len() ==> rooms[j].room_owner != u,
    ensures
        remove_first_owned(rooms, u) == rooms,
    decreases rooms.len(),
{
    if rooms.len() > 0 {
        lemma_remove_first_owned_none(rooms.drop_first(), u);
        assert(remove_first_owned(rooms, u) =~= rooms);
    }
}

/// Removing a non-owner member keeps a room well formed, keeps everyone
/// else, and leaves no trace of the member.
pub proof fn lemma_remove_member_props(r: RoomModel, u: User)
    requires
        r.wf(),
        r.has_member(u),
        r.room_owner != u,
    ensures
        r.remove_member(u).wf(),
        !r.remove_member(u).has_member(u),
        r.remove_member(u).room_id == r.room_id,
        r.remove_member(u).room_owner == r.room_owner,
{
    let i = r.member_index(u);
    let r2 = r.remove_member(u);
    let ms = r.members;
    let ms2 = r2.members;
    assert(0 <= i < ms.len() && ms[i].0 == u);
    assert forall|a: int, b: int| 0 <= a < b < ms2.len() implies ms2[a].0 != ms2[b].0 by {
        let a2: int = if a < i { a } else { a + 1 };
        let b2: int = if b < i { b } else { b + 1 };
        assert(ms2[a] == ms[a2]);
        assert(ms2[b] == ms[b2]);
    }
    assert forall|a: int| 0 <= a < ms2.len() implies (#[trigger] ms2[a]).0 != u by {
        let a2: int = if a < i { a } else { a + 1 };
        assert(ms2[a] == ms[a2]);
        if a2 != i && ms[a2].0 == u {
            if a2 < i {
                assert(ms[a2].0 != ms[i].0);
            } else {
                assert(ms[i].0 != ms[a2].0);
            }
        }
    }
    let ow = choose|k: int| 0 <= k < ms.len() && ms[k].0 == r.room_owner;
    assert(ow != i);
    let ow2: int = if ow < i { ow } else { ow - 1 };
    assert(ms2[ow2] == ms[ow]);
    assert(r2.has_member(r.room_owner));
}

/// A full departure keeps the directory well formed: surviving rooms keep
/// their (distinct) ids and their owners, and none of them still holds the
/// departed user.
pub proof fn lemma_leave_rooms_after_props(rooms: Seq<RoomModel>, u: User)
    requires
        rooms_distinct(rooms),
        forall|i: int| 0 <= i < rooms.len() ==> (#[trigger] rooms[i]).wf(),
    ensures
        rooms_distinct(leave_rooms_after(rooms, u)),
        forall|i: int|
            0 <= i < leave_rooms_after(rooms, u).len() ==> (#[trigger] leave_rooms_after(
                rooms,
                u,
            )[i]).wf(),
        forall|i: int|
            0 <= i < leave_rooms_after(rooms, u).len() ==> !(#[trigger] leave_rooms_after(
                rooms,
                u,
            )[i]).has_member(u),
        forall|i: int|
            0 <= i < leave_rooms_after(rooms, u).len() ==> exists|j: int|
                0 <= j < rooms.len() && (#[trigger] leave_rooms_after(rooms, u)[i]).room_id
                    == rooms[j].room_id,
    decreases rooms.len(),
{
    if rooms.len() > 0 {
        let rest = rooms.drop_last();
        assert forall|i: int| 0 <= i < rest.len() implies (#[trigger] rest[i]).wf() by {
            assert(rest[i] == rooms[i]);
        }
        lemma_leave_rooms_after_props(rest, u);
        let res0 = leave_rooms_after(rest, u);
        let last = rooms.last();
        let res = leave_rooms_after(rooms, u);
        if last.room_owner == u {
            assert(res =~= res0);
        } else {
            let l2 = leave_member(last, u);
            if last.has_member(u) {
                lemma_remove_member_props(last, u);
            }
            assert(l2.wf() && !l2.has_member(u) && l2.room_id == last.room_id);
            assert(res =~= res0.push(l2));
            assert forall|a: int, b: int| 0 <= a < b < res.len() implies res[a].room_id
                != res[b].room_id by {
                if b == res.len() - 1 {
                    let j = choose|j: int|
                        0 <= j < rest.len() && res0[a].room_id == rest[j].room_id;
                    assert(rooms[j].room_id != rooms[rooms.len() - 1].room_id);
                }
            }
            assert forall|i: int|
                0 <= i < res.len() implies exists|j: int|
                    0 <= j < rooms.len() && (#[trigger] res[i]).room_id == rooms[j].room_id by {
                if i < res.len() - 1 {
                    let j = choose|j: int|
                        0 <= j < rest.len() && res0[i].room_id == rest[j].room_id;
                    assert(res[i].room_id == rooms[j].room_id);
                } else {
                    assert(res[i].room_id == rooms[rooms.len() - 1].room_id);
                }
            }
        }
    }
}

/// A full departure keeps the world invariant, and the departed user is a
/// member of no room afterwards.
pub proof fn lemma_leave_all_preserves_wf(m: AppModel, u: User)
    requires
        m.wf(),
    ensures
        m.leave_all(u).0.wf(),
        m.has_user(u) ==> forall|i: int|
            0 <= i < m.leave_all(u).0.rooms.len() ==> !(#[trigger] m.leave_all(
                u,
            ).0.rooms[i]).has_member(u),
{
    if m.has_user(u) {
        lemma_leave_rooms_after_props(m.rooms, u);
        let m2 = m.leave_all(u).0;
        assert forall|i: int| 0 <= i < m2.rooms.len() implies (#[trigger] m2.rooms[i]).room_id.0
            < m2.next_room_id by {
            let j = choose|j: int|
                0 <= j < m.rooms.len() && m2.rooms[i].room_id == m.rooms[j].room_id;
            assert(m.rooms[j].room_id.0 < m.next_room_id);
        }
    }
}

/// Adding a fresh member at zero keeps a room well formed.
pub proof fn lemma_room_push_member_wf(r: RoomModel, u: User)
    requires
        r.wf(),
        !r.has_member(u),
    ensures
        (RoomModel {
            members: r.members.push((u, UserGameData { score: 0, emote: 0 })),
            ..r
        }).wf(),
{
    let r2 = RoomModel {
        members: r.members.push((u, UserGameData { score: 0, emote: 0 })),
        ..r
    };
    assert forall|a: int, b: int| 0 <= a < b < r2.members.len() implies r2.members[a].0
        != r2.members[b].0 by {
        if b == r2.members.len() - 1 {
            assert(r2.members[a] == r.members[a]);
            assert(!(exists|k: int| 0 <= k < r.members.len() && r.members[k].0 == u));
        }
    }
    let ow = choose|k: int| 0 <= k < r.members.len() && r.members[k].0 == r.room_owner;
    assert(r2.members[ow] == r.members[ow]);
    assert(r2.has_member(r2.room_owner));
}

/// Replacing one member's progress keeps a room well formed and keeps its
/// identity: the roster's ids are untouched.
pub proof fn lemma_with_member_data_wf(r: RoomModel, u: User, d: UserGameData)
    requires
        r.wf(),
        r.has_member(u),
    ensures
        r.with_member_data(u, d).wf(),
        r.with_member_data(u, d).room_id == r.room_id,
        r.with_member_data(u, d).has_member(u),
        r.with_member_data(u, d).member_index(u) == r.member_index(u),
        r.with_member_data(u, d).member_data(u) == d,
{
    let i = r.member_index(u);
    let r2 = r.with_member_data(u, d);
    assert(0 <= i < r.members.len() && r.members[i].0 == u);
    assert forall|k: int| 0 <= k < r2.members.len() implies (#[trigger] r2.members[k]).0
        == r.members[k].0 by {}
    assert forall|a: int, b: int| 0 <= a < b < r2.members.len() implies r2.members[a].0
        != r2.members[b].0 by {
        assert(r2.members[a].0 == r.members[a].0);
        assert(r2.members[b].0 == r.members[b].0);
    }
    let ow = choose|k: int| 0 <= k < r.members.len() && r.members[k].0 == r.room_owner;
    assert(r2.members[ow].0 == r.room_owner);
    assert(r2.has_member(r2.room_owner));
    assert(r2.members[i].0 == u);
    let k2 = r2.member_index(u);
    assert(0 <= k2 < r2.members.len() && r2.members[k2].0 == u);
    if k2 != i {
        assert(r.members[k2].0 == u);
        if k2 < i {
            assert(r.members[k2].0 != r.members[i].0);
        } else {
            assert(r.members[i].0 != r.members[k2].0);
        }
    }
}

/// Replacing a room by a well-formed room of the same id keeps the world
/// invariant.
pub proof fn lemma_with_room_wf(m: AppModel, rid: RoomID, r2: RoomModel)
    requires
        m.wf(),
        m.has_room(rid),
        r2.wf(),
        r2.room_id == rid,
    ensures
        m.with_room(rid, r2).wf(),
{
    let i = m.room_index(rid);
    let m2 = m.with_room(rid, r2);
    assert(m.rooms[i].room_id == rid);
    assert forall|a: int, b: int| 0 <= a < b < m2.rooms.len() implies m2.rooms[a].room_id
        != m2.rooms[b].room_id by {
        assert(m2.rooms[a].room_id == m.rooms[a].room_id);
        assert(m2.rooms[b].room_id == m.rooms[b].room_id);
    }
    assert forall|a: int| 0 <= a < m2.rooms.len() implies (#[trigger] m2.rooms[a]).room_id.0
        < m2.next_room_id && m2.rooms[a].wf() by {
        if a != i {
            assert(m2.rooms[a] == m.rooms[a]);
            assert(m.rooms[a].wf());
        } else {
            assert(m.rooms[a].wf());
        }
    }
}

/// Creating a room keeps the world invariant: the fresh id is above every
/// live room's id, and the new single-member roster is well formed.
pub proof fn lemma_create_room_preserves_wf(m: AppModel, owner: User, seed: u64)
    requires
        m.wf(),
        m.next_room_id < u64::MAX,
    ensures
        m.create_room(owner, seed).0.wf(),
{
    let (m2, r) = m.create_room(owner, seed);
    if m.has_user(owner) {
        let room = RoomModel::fresh(RoomID(m.next_room_id), owner, DEFAULT_DURATION_SEC, seed);
        assert(room.members[0].0 == owner);
        assert(room.has_member(owner));
        assert(room.wf());
        assert forall|i: int, j: int|
            0 <= i < j < m2.rooms.len() implies m2.rooms[i].room_id != m2.rooms[j].room_id by {
            if j == m2.rooms.len() - 1 {
                assert(m2.rooms[i] == m.rooms[i]);
                assert(m.rooms[i].room_id.0 < m.next_room_id);
            }
        }
        assert(m2.users_wf());
        assert(m2.rooms_wf());
    }
}

} // verus!
