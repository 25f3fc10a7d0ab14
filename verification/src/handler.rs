//! The room directory and round state machine: every operation as a pure
//! transition on [`AppData`], returning the actions for the shell to
//! perform.

use vstd::assert_seqs_equal;
use vstd::prelude::*;

use crate::data::{
    rooms_model, users_model, AppData, GameState, JWTClaim, RoomID, User, UserData, UserGameData,
    CORRECT_SCORE_TENTHS, DEFAULT_DURATION_SEC, INCORRECT_SCORE_TENTHS, SKIP_SCORE_TENTHS,
};
use crate::model::{
    disband_acts, disband_msg, emote_msg, emote_push_acts, game_update_acts, join_failed_msg, leave_rooms_acts, leave_rooms_after,
    lemma_create_room_preserves_wf, lemma_create_user_preserves_wf, lemma_leave_all_preserves_wf,
    lemma_member_index, lemma_remove_first_owned_at, lemma_remove_first_owned_none,
    lemma_remove_member_props, lemma_room_index, lemma_room_push_member_wf, lemma_user_index, lemma_user_pos, lemma_with_member_data_wf,
    lemma_wf_rooms_remove, lemma_wf_users_remove, lemma_with_room_wf, login_in, remove_first_owned, roster_acts,
    roster_logins, scoreboard, send_act, user_in, users_distinct, ActModel, AppModel, MsgModel, RoomModel,
};
use crate::requests::{EditRoomData, JoinRoomData, Request, SkipData, StartGameData, SubmitGuessData};
use crate::responses::{
    acts_model, lemma_acts_model_concat, lemma_acts_model_snoc, Action, EmoteData, EmoteResponse, ErrorData, ErrorDataType,
    GameOverData, GameUpdateData, GuessData, NewUserData, Response, RoomJoinData,
};
use crate::sequencer::{
    chars_eq, choose_random_emote, guess_matches, lowercase_chars, mask_guess, masked_hint,
    seeded_choice, string_from_chars,
};
use crate::seventv::{catalog_model, FinalEmote};
use vstd::string::StrSliceExecFns;

verus! {

impl AppData {
    /// Linear scan of the session registry.
    fn find_user(&self, user: User) -> (r: Option<usize>)
        ensures
            match r {
                Some(i) => i < self.users@.len() && self.users@[i as int].user == user
                    && self.model().has_user(user),
                None => !self.model().has_user(user),
            },
    {
        let mut i: usize = 0;
        while i < self.users.len()
            invariant
                i <= self.users@.len(),
                forall|j: int| 0 <= j < i ==> self.users@[j].user != user,
            decreases self.users@.len() - i,
        {
            if self.users[i].user.0 == user.0 {
                proof {
                    assert(self.model().users[i as int] == self.users@[i as int].model());
                }
                return Some(i);
            }
            i = i + 1;
        }
        proof {
            assert forall|k: int|
                0 <= k < self.model().users.len() implies self.model().users[k].user != user by {
                assert(self.model().users[k] == self.users@[k].model());
            }
        }
        None
    }

    /// Linear scan of the room directory.
    fn find_room(&self, room_id: RoomID) -> (r: Option<usize>)
        ensures
            match r {
                Some(i) => i < self.game_states@.len() && self.game_states@[i as int].room_id
                    == room_id && self.model().has_room(room_id),
                None => !self.model().has_room(room_id),
            },
    {
        let mut i: usize = 0;
        while i < self.game_states.len()
            invariant
                i <= self.game_states@.len(),
                forall|j: int| 0 <= j < i ==> self.game_states@[j].room_id != room_id,
            decreases self.game_states@.len() - i,
        {
            if self.game_states[i].room_id.0 == room_id.0 {
                proof {
                    assert(self.model().rooms[i as int] == self.game_states@[i as int].model());
                }
                return Some(i);
            }
            i = i + 1;
        }
        proof {
            assert forall|k: int|
                0 <= k < self.model().rooms.len() implies self.model().rooms[k].room_id
                    != room_id by {
                assert(self.model().rooms[k] == self.game_states@[k].model());
            }
        }
        None
    }
}

impl GameState {
    /// Linear scan of a room's roster.
    fn find_member(&self, user: User) -> (r: Option<usize>)
        ensures
            match r {
                Some(i) => i < self.user_data@.len() && self.user_data@[i as int].0 == user
                    && self.model().has_member(user),
                None => !self.model().has_member(user),
            },
    {
        let mut i: usize = 0;
        while i < self.user_data.len()
            invariant
                i <= self.user_data@.len(),
                forall|j: int| 0 <= j < i ==> self.user_data@[j].0 != user,
            decreases self.user_data@.len() - i,
        {
            if self.user_data[i].0.0 == user.0 {
                proof {
                    assert(self.model().members[i as int].0 == user);
                }
                return Some(i);
            }
            i = i + 1;
        }
        None
    }
}

/// Whether a user id is registered.
pub fn is_user_exists(app_data: &AppData, user: User) -> (r: bool)
    ensures
        r == app_data.model().has_user(user),
{
    app_data.find_user(user).is_some()
}

/// Whether a room id is live in the directory.
pub fn is_room_exists(app_data: &AppData, room_id: RoomID) -> (r: bool)
    ensures
        r == app_data.model().has_room(room_id),
{
    app_data.find_room(room_id).is_some()
}

/// Whether a user stands in a room's roster.
pub fn is_user_in_room(game_state: &GameState, user: User) -> (r: bool)
    ensures
        r == game_state.model().has_member(user),
{
    game_state.find_member(user).is_some()
}

/// Whether a user owns a room.
pub fn is_user_owner_of_room(game_state: &GameState, user: User) -> (r: bool)
    ensures
        r == (game_state.room_owner == user),
{
    game_state.room_owner.0 == user.0
}

/// Creates a room for `user_id`, seeded with `seed`: a fresh id, the
/// default duration, and the owner as only member.  Fails silently (no
/// room, `None`) if the owner is not registered.
pub fn create_room(app_data: &mut AppData, user_id: User, seed: u64) -> (r: Option<RoomID>)
    requires
        old(app_data).model().wf(),
        old(app_data).next_room_id < u64::MAX,
    ensures
        final(app_data).model() == old(app_data).model().create_room(user_id, seed).0,
        r == old(app_data).model().create_room(user_id, seed).1,
        final(app_data).model().wf(),
{
    proof {
        lemma_create_room_preserves_wf(old(app_data).model(), user_id, seed);
    }
    if !is_user_exists(app_data, user_id) {
        return None;
    }
    let rid = RoomID(app_data.next_room_id);
    let gs = GameState::new(rid, user_id, DEFAULT_DURATION_SEC, seed);
    app_data.game_states.push(gs);
    app_data.next_room_id = app_data.next_room_id + 1;
    proof {
        let m = old(app_data).model();
        assert(app_data.model().rooms =~= m.create_room(user_id, seed).0.rooms);
        assert(app_data.model().users =~= m.users);
        assert(app_data.model() =~= m.create_room(user_id, seed).0);
    }
    Some(rid)
}

/// Relies on rand::random: a fresh pseudorandom 64-bit room seed.  Nothing
/// is promised of its value; every caller's contract holds whatever comes
/// back.
#[verifier::external_body]
fn fresh_seed() -> u64 {
    rand::random()
}

/// Handles the room-creation command: draws a fresh random seed, creates
/// the room, and (on success) sends the creator its single-member roster.
/// The seed is pseudorandom, so the contract pins everything but its value:
/// the state and actions are those of `handle_create_room` on the model,
/// at whatever seed the new room carries.
pub fn handle_create_room(app_data: &mut AppData, user_id: User) -> (acts: Vec<Action>)
    requires
        old(app_data).model().wf(),
        old(app_data).next_room_id < u64::MAX,
    ensures
        final(app_data).model().wf(),
        exists|seed: u64|
            final(app_data).model() == (#[trigger] old(app_data).model().handle_create_room(
                user_id,
                seed,
            )).0 && acts_model(acts@) == old(app_data).model().handle_create_room(
                user_id,
                seed,
            ).1,
{
    let seed = fresh_seed();
    let ghost m = old(app_data).model();
    let rid = match create_room(app_data, user_id, seed) {
        Option::Some(r) => r,
        Option::None => {
            proof {
                assert({
                    let (m2, a) = m.handle_create_room(user_id, seed);
                    app_data.model() == m2 && acts_model(Seq::<Action>::empty()) =~= a
                });
            }
            return Vec::new();
        },
    };
    let ghost uidx = m.user_index(user_id);
    let i = app_data.find_user(user_id).unwrap();
    proof {
        lemma_user_index(app_data.model(), user_id, i as int);
        lemma_user_index(m, user_id, i as int);
        assert(app_data.model().users == m.users);
    }
    let user_login = app_data.users[i].claim.data.login.clone();
    let mut player_list: Vec<String> = Vec::new();
    player_list.push(user_login);
    let mut acts: Vec<Action> = Vec::new();
    acts.push(
        Action::Send {
            to: user_id,
            message: Response::RoomJoin(
                RoomJoinData { room_id: rid, is_owner: true, player_list },
            ),
        },
    );
    proof {
        let (m2, a) = m.handle_create_room(user_id, seed);
        assert(acts@[0].model() =~~= a[0]);
        assert(acts_model(acts@) =~~= a);
    }
    acts
}

/// Handles the duration-edit command: a no-op without a registered caller
/// and a live room; otherwise replaces the stored duration, effective on
/// the next round start.
pub fn handle_edit_room(app_data: &mut AppData, user_id: User, data: EditRoomData)
    requires
        old(app_data).model().wf(),
    ensures
        final(app_data).model() == old(app_data).model().edit_room(
            user_id,
            data.room_id,
            data.game_duration,
        ),
        final(app_data).model().wf(),
{
    let ghost m = old(app_data).model();
    if !is_user_exists(app_data, user_id) {
        return ;
    }
    let idx = match app_data.find_room(data.room_id) {
        Option::Some(i) => i,
        Option::None => { return ; },
    };
    proof {
        lemma_room_index(m, data.room_id, idx as int);
    }
    let mut gs = app_data.game_states.remove(idx);
    gs.duration_secs = data.game_duration;
    app_data.game_states.insert(idx, gs);
    proof {
        let m2 = m.edit_room(user_id, data.room_id, data.game_duration);
        assert(app_data.model().rooms =~= m2.rooms);
        assert(app_data.model() =~= m2);
        assert forall|a: int, b: int| 0 <= a < b < m2.rooms.len() implies m2.rooms[a].room_id
            != m2.rooms[b].room_id by {
            assert(m2.rooms[a].room_id == m.rooms[a].room_id);
            assert(m2.rooms[b].room_id == m.rooms[b].room_id);
        }
        assert forall|a: int| 0 <= a < m2.rooms.len() implies (#[trigger] m2.rooms[a]).room_id.0
            < m2.next_room_id && m2.rooms[a].wf() by {
            if a == idx as int {
                assert(m.rooms[a].wf());
                assert(m2.rooms[a].members == m.rooms[a].members);
            } else {
                assert(m2.rooms[a] == m.rooms[a]);
            }
        }
    }
}

/// Registers a freshly authenticated connection: assigns the next user id,
/// stores the claim, and greets the new user with its id.  Always
/// succeeds.
pub fn handle_create_user(app_data: &mut AppData, claim: JWTClaim) -> (r: (User, Vec<Action>))
    requires
        old(app_data).model().wf(),
        old(app_data).next_user_id < u64::MAX,
    ensures
        final(app_data).model().wf(),
        ({
            let (m2, u, a) = old(app_data).model().create_user(
                claim.data.id@,
                claim.data.login@,
                claim.data.display_name@,
            );
            final(app_data).model() == m2 && r.0 == u && acts_model(r.1@) == a
        }),
{
    let ghost m = old(app_data).model();
    proof {
        lemma_create_user_preserves_wf(m, claim.data.id@, claim.data.login@,
            claim.data.display_name@);
    }
    let user = User(app_data.next_user_id);
    let mut acts: Vec<Action> = Vec::new();
    acts.push(Action::Send { to: user, message: Response::NewUser(NewUserData { user_id: user }) });
    app_data.users.push(UserData { user, claim });
    app_data.next_user_id = app_data.next_user_id + 1;
    proof {
        let (m2, u, a) = m.create_user(claim.data.id@, claim.data.login@, claim.data.display_name@);
        assert(app_data.model().users =~= m2.users);
        assert(app_data.model() =~= m2);
        assert(acts_model(acts@) =~= a);
    }
    (user, acts)
}

/// Handles a disconnect: dissolves the first room the user owns (if any),
/// then drops the user from the registry.  Idempotent; other memberships
/// go stale, which is harmless since sends to a removed user are no-ops.
pub fn handle_delete_user(app_data: &mut AppData, user: User)
    requires
        old(app_data).model().wf(),
    ensures
        final(app_data).model() == old(app_data).model().delete_user(user),
        final(app_data).model().wf(),
{
    let ghost m = old(app_data).model();
    let owned = find_first_owned(&app_data.game_states, user);
    match owned {
        Option::Some(i) => {
            proof {
                lemma_remove_first_owned_at(m.rooms, user, i as int);
                lemma_wf_rooms_remove(m, i as int);
            }
            app_data.game_states.remove(i);
        },
        Option::None => {
            proof {
                lemma_remove_first_owned_none(m.rooms, user);
            }
        },
    }
    let ghost m1 = app_data.model();
    proof {
        assert(m1 =~= AppModel { rooms: remove_first_owned(m.rooms, user), ..m });
    }
    match app_data.find_user(user) {
        Option::Some(i) => {
            proof {
                lemma_user_index(m1, user, i as int);
                lemma_wf_users_remove(m1, i as int);
            }
            app_data.users.remove(i);
            proof {
                assert(app_data.model().users =~= m1.users.remove(i as int));
                assert(app_data.model() =~= m.delete_user(user));
            }
        },
        Option::None => {
            proof {
                assert(app_data.model() =~= m.delete_user(user));
            }
        },
    }
}

/// Display names of a roster, in roster order, members that have left the
/// registry skipped.
fn roster_logins_exec(users: &Vec<UserData>, members: &Vec<(User, UserGameData)>) -> (r: Vec<
    String,
>)
    requires
        users_distinct(users_model(users@)),
    ensures
        r@.map_values(|s: String| s@) == roster_logins(users_model(users@), members@),
{
    let ghost musers = users_model(users@);
    let mut r: Vec<String> = Vec::new();
    let mut k: usize = 0;
    while k < members.len()
        invariant
            k <= members@.len(),
            users_distinct(musers),
            musers == users_model(users@),
            r@.map_values(|s: String| s@) =~= roster_logins(musers, members@.take(k as int)),
        decreases members@.len() - k,
    {
        proof {
            assert(members@.take(k as int + 1).drop_last() =~= members@.take(k as int));
        }
        match find_user_in(users, members[k].0) {
            Option::Some(i) => {
                proof {
                    lemma_user_pos(musers, members@[k as int].0, i as int);
                    assert(login_in(musers, members@[k as int].0) == users@[i as int].model().login);
                }
                r.push(users[i].claim.data.login.clone());
            },
            Option::None => {},
        }
        proof {
            assert(r@.map_values(|s: String| s@) =~= roster_logins(
                musers,
                members@.take(k as int + 1),
            ));
        }
        k = k + 1;
    }
    proof {
        assert(members@.take(members@.len() as int) =~= members@);
    }
    r
}

/// Appends a room's roster broadcast: every member is told the room id,
/// whether it is the owner, and the full member display-name list.
fn push_roster_acts(users: &Vec<UserData>, gs: &GameState, acts: &mut Vec<Action>)
    requires
        users_distinct(users_model(users@)),
    ensures
        acts_model(final(acts)@) == acts_model(old(acts)@) + roster_acts(
            users_model(users@),
            gs.model(),
        ),
{
    let ghost base = acts@;
    let ghost musers = users_model(users@);
    let ghost rm = gs.model();
    let mut j: usize = 0;
    while j < gs.user_data.len()
        invariant
            j <= gs.user_data@.len(),
            users_distinct(musers),
            musers == users_model(users@),
            rm == gs.model(),
            acts_model(acts@) =~= acts_model(base) + roster_acts(musers, rm).take(j as int),
        decreases gs.user_data@.len() - j,
    {
        let player_list = roster_logins_exec(users, &gs.user_data);
        let to = gs.user_data[j].0;
        let is_owner = to.0 == gs.room_owner.0;
        let ghost pre = acts@;
        acts.push(
            Action::Send {
                to,
                message: Response::RoomJoin(
                    RoomJoinData { room_id: gs.room_id, is_owner, player_list },
                ),
            },
        );
        proof {
            let x = acts@.last();
            assert(roster_acts(musers, rm).len() == rm.members.len());
            assert(j < rm.members.len());
            assert(x.model() =~~= roster_acts(musers, rm)[j as int]);
            assert(roster_acts(musers, rm).take(j as int + 1) =~= roster_acts(musers, rm).take(
                j as int,
            ).push(x.model()));
            lemma_acts_model_snoc(
                base,
                pre,
                x,
                roster_acts(musers, rm).take(j as int),
                roster_acts(musers, rm).take(j as int + 1),
            );
        }
        j = j + 1;
    }
    proof {
        assert(roster_acts(musers, rm).take(rm.members.len() as int) =~= roster_acts(musers, rm));
    }
}

/// Appends the eviction notices of a dissolving room: every member but the
/// departing owner is told the room disbanded.
fn push_disband_acts(members: &Vec<(User, UserGameData)>, leaver: User, acts: &mut Vec<Action>)
    ensures
        acts_model(final(acts)@) == acts_model(old(acts)@) + disband_acts(members@, leaver),
{
    let ghost base = acts@;
    let mut j: usize = 0;
    while j < members.len()
        invariant
            j <= members@.len(),
            acts_model(acts@) =~= acts_model(base) + disband_acts(
                members@.take(j as int),
                leaver,
            ),
        decreases members@.len() - j,
    {
        proof {
            assert(members@.take(j as int + 1).drop_last() =~= members@.take(j as int));
        }
        let ghost pre = acts@;
        if members[j].0.0 != leaver.0 {
            acts.push(
                Action::Send {
                    to: members[j].0,
                    message: Response::Error(
                        ErrorData {
                            error_type: ErrorDataType::RoomDisbanded,
                            error_msg: "room owner left room".to_owned(),
                        },
                    ),
                },
            );
            proof {
                let x = acts@.last();
                assert(members@.take(j as int + 1).len() == j + 1);
                assert(members@.take(j as int + 1).last() == members@[j as int]);
                assert(x.model() =~~= send_act(members@[j as int].0, disband_msg()));
                assert(disband_acts(members@.take(j as int + 1), leaver) =~= disband_acts(
                    members@.take(j as int),
                    leaver,
                ).push(x.model()));
                lemma_acts_model_snoc(
                    base,
                    pre,
                    x,
                    disband_acts(members@.take(j as int), leaver),
                    disband_acts(members@.take(j as int + 1), leaver),
                );
            }
        }
        proof {
            assert(members@.take(j as int + 1).len() == j + 1);
            assert(members@.take(j as int + 1).last() == members@[j as int]);
            assert(acts_model(acts@) =~= acts_model(base) + disband_acts(
                members@.take(j as int + 1),
                leaver,
            ));
        }
        j = j + 1;
    }
    proof {
        assert(members@.take(members@.len() as int) =~= members@);
    }
}

/// Fully departs `user_id` from every room it occupies: rooms it owns are
/// dissolved (co-members told the room disbanded), other memberships are
/// removed (remaining members told the updated roster).  A no-op for an
/// unregistered user.
pub fn leave_all_rooms(app_data: &mut AppData, user_id: User) -> (acts: Vec<Action>)
    requires
        old(app_data).model().wf(),
    ensures
        final(app_data).model() == old(app_data).model().leave_all(user_id).0,
        acts_model(acts@) == old(app_data).model().leave_all(user_id).1,
        final(app_data).model().wf(),
{
    let ghost m = old(app_data).model();
    proof {
        lemma_leave_all_preserves_wf(m, user_id);
    }
    if !is_user_exists(app_data, user_id) {
        let r: Vec<Action> = Vec::new();
        proof {
            assert(acts_model(r@) =~= m.leave_all(user_id).1);
        }
        return r;
    }
    let mut acts: Vec<Action> = Vec::new();
    let mut kept: Vec<GameState> = Vec::new();
    let ghost mut k: int = 0;
    while app_data.game_states.len() > 0
        invariant
            0 <= k <= m.rooms.len(),
            m.wf(),
            users_model(app_data.users@) == m.users,
            app_data.next_user_id == m.next_user_id,
            app_data.next_room_id == m.next_room_id,
            rooms_model(app_data.game_states@) =~= m.rooms.skip(k),
            rooms_model(kept@) =~= leave_rooms_after(m.rooms.take(k), user_id),
            acts_model(acts@) =~= leave_rooms_acts(m.users, m.rooms.take(k), user_id),
        decreases app_data.game_states@.len(),
    {
        proof {
            assert(rooms_model(app_data.game_states@).len() == app_data.game_states@.len());
            assert(m.rooms.skip(k).len() == m.rooms.len() - k);
            assert(k < m.rooms.len());
            assert(m.rooms.take(k + 1).drop_last() =~= m.rooms.take(k));
            assert(rooms_model(app_data.game_states@)[0] == m.rooms[k]);
            assert(m.rooms[k].wf());
        }
        let ghost pre_states = app_data.game_states@;
        let mut gs = app_data.game_states.remove(0);
        proof {
            assert(gs.model() == m.rooms[k]);
            assert_seqs_equal!(
                rooms_model(app_data.game_states@) == m.rooms.skip(k + 1),
                i => {
                    assert(app_data.game_states@[i] == pre_states[i + 1]);
                    assert(rooms_model(pre_states)[i + 1] == m.rooms.skip(k)[i + 1]);
                }
            );
        }
        if gs.room_owner.0 == user_id.0 {
            push_disband_acts(&gs.user_data, user_id, &mut acts);
            proof {
                assert(rooms_model(kept@) =~= leave_rooms_after(m.rooms.take(k + 1), user_id));
                assert(acts_model(acts@) =~= leave_rooms_acts(
                    m.users,
                    m.rooms.take(k + 1),
                    user_id,
                ));
            }
        } else {
            match gs.find_member(user_id) {
                Option::Some(i) => {
                    proof {
                        lemma_member_index(gs.model(), user_id, i as int);
                        lemma_remove_member_props(gs.model(), user_id);
                    }
                    let ghost before = gs.model();
                    gs.user_data.remove(i);
                    proof {
                        assert(gs.model().members =~= before.remove_member(user_id).members);
                        assert(gs.model() =~= before.remove_member(user_id));
                    }
                    push_roster_acts(&app_data.users, &gs, &mut acts);
                    proof {
                        assert(acts_model(acts@) =~= leave_rooms_acts(
                            m.users,
                            m.rooms.take(k + 1),
                            user_id,
                        ));
                    }
                },
                Option::None => {
                    proof {
                        assert(acts_model(acts@) =~= leave_rooms_acts(
                            m.users,
                            m.rooms.take(k + 1),
                            user_id,
                        ));
                    }
                },
            }
            kept.push(gs);
        }
        proof {
            assert(rooms_model(kept@) =~= leave_rooms_after(m.rooms.take(k + 1), user_id));
            k = k + 1;
        }
    }
    app_data.game_states = kept;
    proof {
        assert(m.rooms.take(m.rooms.len() as int) =~= m.rooms);
        assert(app_data.model() =~= m.leave_all(user_id).0);
    }
    acts
}

/// Handles the join command.  An unregistered caller is ignored; an absent
/// target room earns the caller a `RoomJoinFailed` error.  Otherwise the
/// caller first fully departs its rooms (owned rooms dissolve, other
/// memberships are dropped, each with its notifications), then enters the
/// target at zero score and advancement, and every member of the target —
/// the joiner included — receives the new roster.  If the departure
/// dissolved the target itself (the caller owned it), the join is
/// abandoned.
pub fn handle_join_room(app_data: &mut AppData, user_id: User, data: JoinRoomData) -> (acts: Vec<
    Action,
>)
    requires
        old(app_data).model().wf(),
    ensures
        final(app_data).model() == old(app_data).model().join_room(user_id, data.room_id).0,
        acts_model(acts@) == old(app_data).model().join_room(user_id, data.room_id).1,
        final(app_data).model().wf(),
{
    let ghost m = old(app_data).model();
    if !is_user_exists(app_data, user_id) {
        let r: Vec<Action> = Vec::new();
        proof {
            assert(acts_model(r@) =~= m.join_room(user_id, data.room_id).1);
        }
        return r;
    }
    if !is_room_exists(app_data, data.room_id) {
        let mut acts: Vec<Action> = Vec::new();
        acts.push(
            Action::Send {
                to: user_id,
                message: Response::Error(
                    ErrorData {
                        error_type: ErrorDataType::RoomJoinFailed,
                        error_msg: "Room does not exist".to_owned(),
                    },
                ),
            },
        );
        proof {
            assert(acts@[0].model() =~~= send_act(user_id, join_failed_msg()));
            assert(acts_model(acts@) =~= m.join_room(user_id, data.room_id).1);
        }
        return acts;
    }
    proof {
        lemma_leave_all_preserves_wf(m, user_id);
    }
    let mut acts = leave_all_rooms(app_data, user_id);
    let ghost m1 = m.leave_all(user_id).0;
    let idx = match app_data.find_room(data.room_id) {
        Option::Some(i) => i,
        Option::None => {
            return acts;
        },
    };
    proof {
        lemma_room_index(m1, data.room_id, idx as int);
        assert(m1.rooms[idx as int].wf());
        assert(!m1.rooms[idx as int].has_member(user_id));
        lemma_room_push_member_wf(m1.room(data.room_id), user_id);
        lemma_with_room_wf(
            m1,
            data.room_id,
            RoomModel {
                members: m1.room(data.room_id).members.push(
                    (user_id, UserGameData { score: 0, emote: 0 }),
                ),
                ..m1.room(data.room_id)
            },
        );
    }
    let mut gs = app_data.game_states.remove(idx);
    gs.user_data.push((user_id, UserGameData::default()));
    proof {
        let r2 = RoomModel {
            members: m1.room(data.room_id).members.push(
                (user_id, UserGameData { score: 0, emote: 0 }),
            ),
            ..m1.room(data.room_id)
        };
        assert(gs.model().members =~= r2.members);
        assert(gs.model() =~= r2);
    }
    push_roster_acts(&app_data.users, &gs, &mut acts);
    app_data.game_states.insert(idx, gs);
    proof {
        let m2 = m.join_room(user_id, data.room_id).0;
        assert(app_data.model().rooms =~= m2.rooms);
        assert(app_data.model() =~= m2);
        assert(acts_model(acts@) =~= m.join_room(user_id, data.room_id).1);
    }
    acts
}

/// The outbound message for one emote: the seeded draw at advancement
/// `adv`, its name fully masked, with its image URL.
fn emote_response(catalog: &Vec<FinalEmote>, seed: u64, adv: u32) -> (r: Response)
    requires
        catalog@.len() > 0,
    ensures
        r.model() == emote_msg(catalog_model(catalog@), seed, adv),
{
    let e = choose_random_emote(catalog, seed, adv);
    let n = e.name.as_str().unicode_len();
    let hint = masked_hint(n);
    let matched_chars = string_from_chars(&hint);
    let r = Response::Emote(
        EmoteData { emote: EmoteResponse { matched_chars, url: e.url.clone() } },
    );
    proof {
        let idx = seeded_choice(seed, catalog@.len() as int, adv as int);
        assert(catalog_model(catalog@).len() == catalog@.len());
        assert(catalog_model(catalog@)[idx] == catalog@[idx].model());
        assert(r.model() =~~= emote_msg(catalog_model(catalog@), seed, adv));
    }
    r
}

/// Resolves a member's current target emote and builds its push: a no-op
/// (no actions) if the room or the membership is absent.
pub fn send_random_emote(
    app_data: &AppData,
    user: User,
    room_id: RoomID,
    catalog: &Vec<FinalEmote>,
) -> (acts: Vec<Action>)
    requires
        app_data.model().wf(),
        catalog@.len() > 0,
    ensures
        acts_model(acts@) == app_data.model().send_random_emote(
            user,
            room_id,
            catalog_model(catalog@),
        ),
{
    let ghost m = app_data.model();
    let mut acts: Vec<Action> = Vec::new();
    let idx = match app_data.find_room(room_id) {
        Option::Some(i) => i,
        Option::None => {
            proof {
                assert(acts_model(acts@) =~= m.send_random_emote(
                    user,
                    room_id,
                    catalog_model(catalog@),
                ));
            }
            return acts;
        },
    };
    proof {
        lemma_room_index(m, room_id, idx as int);
        assert(m.rooms[idx as int].wf());
    }
    let gs = &app_data.game_states[idx];
    let midx = match gs.find_member(user) {
        Option::Some(i) => i,
        Option::None => {
            proof {
                assert(acts_model(acts@) =~= m.send_random_emote(
                    user,
                    room_id,
                    catalog_model(catalog@),
                ));
            }
            return acts;
        },
    };
    proof {
        lemma_member_index(gs.model(), user, midx as int);
    }
    let d = gs.user_data[midx].1;
    acts.push(Action::Send { to: user, message: emote_response(catalog, gs.seed, d.emote) });
    proof {
        assert(acts_model(acts@) =~= m.send_random_emote(user, room_id, catalog_model(catalog@)));
    }
    acts
}

/// Display name and score (in tenths) of a roster, in roster order,
/// members that have left the registry skipped.
fn scoreboard_exec(users: &Vec<UserData>, members: &Vec<(User, UserGameData)>) -> (r: Vec<
    (String, i64),
>)
    requires
        users_distinct(users_model(users@)),
    ensures
        r@.map_values(|p: (String, i64)| (p.0@, p.1)) == scoreboard(users_model(users@), members@),
{
    let ghost musers = users_model(users@);
    let mut r: Vec<(String, i64)> = Vec::new();
    let mut k: usize = 0;
    while k < members.len()
        invariant
            k <= members@.len(),
            users_distinct(musers),
            musers == users_model(users@),
            r@.map_values(|p: (String, i64)| (p.0@, p.1)) =~= scoreboard(
                musers,
                members@.take(k as int),
            ),
        decreases members@.len() - k,
    {
        proof {
            assert(members@.take(k as int + 1).drop_last() =~= members@.take(k as int));
        }
        match find_user_in(users, members[k].0) {
            Option::Some(i) => {
                proof {
                    lemma_user_pos(musers, members@[k as int].0, i as int);
                    assert(login_in(musers, members@[k as int].0) == users@[i as int].model().login);
                }
                r.push((users[i].claim.data.login.clone(), members[k].1.score));
            },
            Option::None => {},
        }
        proof {
            assert(r@.map_values(|p: (String, i64)| (p.0@, p.1)) =~= scoreboard(
                musers,
                members@.take(k as int + 1),
            ));
        }
        k = k + 1;
    }
    proof {
        assert(members@.take(members@.len() as int) =~= members@);
    }
    r
}

/// Appends a room's scoreboard broadcast: every member gets the same
/// board.
fn push_game_update_acts(users: &Vec<UserData>, gs: &GameState, acts: &mut Vec<Action>)
    requires
        users_distinct(users_model(users@)),
    ensures
        acts_model(final(acts)@) == acts_model(old(acts)@) + game_update_acts(
            users_model(users@),
            gs.model(),
        ),
{
    let ghost base = acts@;
    let ghost musers = users_model(users@);
    let ghost rm = gs.model();
    let mut j: usize = 0;
    while j < gs.user_data.len()
        invariant
            j <= gs.user_data@.len(),
            users_distinct(musers),
            musers == users_model(users@),
            rm == gs.model(),
            acts_model(acts@) =~= acts_model(base) + game_update_acts(musers, rm).take(j as int),
        decreases gs.user_data@.len() - j,
    {
        let scores = scoreboard_exec(users, &gs.user_data);
        let ghost pre = acts@;
        acts.push(
            Action::Send {
                to: gs.user_data[j].0,
                message: Response::GameUpdate(GameUpdateData { scores }),
            },
        );
        proof {
            let x = acts@.last();
            assert(game_update_acts(musers, rm).len() == rm.members.len());
            assert(x.model() =~~= game_update_acts(musers, rm)[j as int]);
            assert(game_update_acts(musers, rm).take(j as int + 1) =~= game_update_acts(
                musers,
                rm,
            ).take(j as int).push(x.model()));
            lemma_acts_model_snoc(
                base,
                pre,
                x,
                game_update_acts(musers, rm).take(j as int),
                game_update_acts(musers, rm).take(j as int + 1),
            );
        }
        j = j + 1;
    }
    proof {
        assert(game_update_acts(musers, rm).take(rm.members.len() as int) =~= game_update_acts(
            musers,
            rm,
        ));
    }
}

/// Builds the scoreboard broadcast of a room: a no-op (no actions) if the
/// room is absent.
pub fn inform_room_game_state(app_data: &AppData, room_id: RoomID) -> (acts: Vec<Action>)
    requires
        app_data.model().wf(),
    ensures
        acts_model(acts@) == app_data.model().inform_room_game_state(room_id),
{
    let ghost m = app_data.model();
    let mut acts: Vec<Action> = Vec::new();
    let idx = match app_data.find_room(room_id) {
        Option::Some(i) => i,
        Option::None => {
            proof {
                assert(acts_model(acts@) =~= m.inform_room_game_state(room_id));
            }
            return acts;
        },
    };
    proof {
        lemma_room_index(m, room_id, idx as int);
    }
    push_game_update_acts(&app_data.users, &app_data.game_states[idx], &mut acts);
    proof {
        assert(acts_model(acts@) =~= m.inform_room_game_state(room_id));
    }
    acts
}

/// Appends the emote pushes of a whole roster, each member at its own
/// advancement.
fn push_emote_acts(catalog: &Vec<FinalEmote>, gs: &GameState, acts: &mut Vec<Action>)
    requires
        catalog@.len() > 0,
    ensures
        acts_model(final(acts)@) == acts_model(old(acts)@) + emote_push_acts(
            catalog_model(catalog@),
            gs.seed,
            gs.model().members,
        ),
{
    let ghost base = acts@;
    let ghost cm = catalog_model(catalog@);
    let ghost rm = gs.model();
    let mut j: usize = 0;
    while j < gs.user_data.len()
        invariant
            j <= gs.user_data@.len(),
            catalog@.len() > 0,
            cm == catalog_model(catalog@),
            rm == gs.model(),
            acts_model(acts@) =~= acts_model(base) + emote_push_acts(cm, gs.seed, rm.members).take(
                j as int,
            ),
        decreases gs.user_data@.len() - j,
    {
        let message = emote_response(catalog, gs.seed, gs.user_data[j].1.emote);
        let ghost pre = acts@;
        acts.push(Action::Send { to: gs.user_data[j].0, message });
        proof {
            let x = acts@.last();
            assert(emote_push_acts(cm, gs.seed, rm.members).len() == rm.members.len());
            assert(x.model() =~~= emote_push_acts(cm, gs.seed, rm.members)[j as int]);
            assert(emote_push_acts(cm, gs.seed, rm.members).take(j as int + 1) =~= emote_push_acts(
                cm,
                gs.seed,
                rm.members,
            ).take(j as int).push(x.model()));
            lemma_acts_model_snoc(
                base,
                pre,
                x,
                emote_push_acts(cm, gs.seed, rm.members).take(j as int),
                emote_push_acts(cm, gs.seed, rm.members).take(j as int + 1),
            );
        }
        j = j + 1;
    }
    proof {
        assert(emote_push_acts(cm, gs.seed, rm.members).take(rm.members.len() as int)
            =~= emote_push_acts(cm, gs.seed, rm.members));
    }
}

/// Builds the emote pushes for every member of a room: a no-op (no
/// actions) if the room is absent.
pub fn send_random_emote_to_room(
    app_data: &AppData,
    room_id: RoomID,
    catalog: &Vec<FinalEmote>,
) -> (acts: Vec<Action>)
    requires
        app_data.model().wf(),
        catalog@.len() > 0,
    ensures
        acts_model(acts@) == app_data.model().send_random_emote_to_room(
            room_id,
            catalog_model(catalog@),
        ),
{
    let ghost m = app_data.model();
    let mut acts: Vec<Action> = Vec::new();
    let idx = match app_data.find_room(room_id) {
        Option::Some(i) => i,
        Option::None => {
            proof {
                assert(acts_model(acts@) =~= m.send_random_emote_to_room(
                    room_id,
                    catalog_model(catalog@),
                ));
            }
            return acts;
        },
    };
    proof {
        lemma_room_index(m, room_id, idx as int);
    }
    push_emote_acts(catalog, &app_data.game_states[idx], &mut acts);
    proof {
        assert(acts_model(acts@) =~= m.send_random_emote_to_room(
            room_id,
            catalog_model(catalog@),
        ));
    }
    acts
}

/// Handles the start command: ignored without a registered caller and a
/// live room.  The round-end timer is (re)armed for the stored duration
/// whoever calls; only an owner's call also pushes every member its
/// current emote.  That asymmetry is deliberate and preserved.
pub fn handle_start_game(
    app_data: &AppData,
    user_id: User,
    data: StartGameData,
    catalog: &Vec<FinalEmote>,
) -> (acts: Vec<Action>)
    requires
        app_data.model().wf(),
        catalog@.len() > 0,
    ensures
        acts_model(acts@) == app_data.model().start_game(
            user_id,
            data.room_id,
            catalog_model(catalog@),
        ),
{
    let ghost m = app_data.model();
    let mut acts: Vec<Action> = Vec::new();
    if !is_user_exists(app_data, user_id) {
        proof {
            assert(acts_model(acts@) =~= m.start_game(
                user_id,
                data.room_id,
                catalog_model(catalog@),
            ));
        }
        return acts;
    }
    let idx = match app_data.find_room(data.room_id) {
        Option::Some(i) => i,
        Option::None => {
            proof {
                assert(acts_model(acts@) =~= m.start_game(
                    user_id,
                    data.room_id,
                    catalog_model(catalog@),
                ));
            }
            return acts;
        },
    };
    proof {
        lemma_room_index(m, data.room_id, idx as int);
    }
    let duration_secs = app_data.game_states[idx].duration_secs;
    let is_owner = app_data.game_states[idx].room_owner.0 == user_id.0;
    acts.push(Action::ScheduleRoundEnd { room_id: data.room_id, duration_secs });
    let ghost sched = acts@;
    if is_owner {
        let mut pushes = send_random_emote_to_room(app_data, data.room_id, catalog);
        proof {
            lemma_acts_model_concat(sched, pushes@);
        }
        acts.append(&mut pushes);
        proof {
            assert(acts_model(sched) =~= seq![
                ActModel::ScheduleRoundEnd { room_id: data.room_id, duration_secs },
            ]);
            assert(acts_model(acts@) =~= m.start_game(
                user_id,
                data.room_id,
                catalog_model(catalog@),
            ));
        }
    } else {
        proof {
            assert(acts_model(acts@) =~= m.start_game(
                user_id,
                data.room_id,
                catalog_model(catalog@),
            ));
        }
    }
    acts
}

/// Handles a guess: ignored without a registered caller, a live room and a
/// membership.  The target is the member's seeded draw.  An exact
/// case-insensitive match rewards +1.0, advances the counter, answers with
/// the fully revealed comparison, pushes the next emote, and broadcasts
/// the scoreboard; a mismatch costs 0.2, keeps the counter and the target,
/// and answers the guesser alone with the masked comparison.
pub fn handle_submit_guess(
    app_data: &mut AppData,
    user_id: User,
    data: SubmitGuessData,
    catalog: &Vec<FinalEmote>,
) -> (acts: Vec<Action>)
    requires
        old(app_data).model().wf(),
        catalog@.len() > 0,
        old(app_data).model().score_step_ok(user_id, data.room_id),
    ensures
        final(app_data).model() == old(app_data).model().submit_guess(
            user_id,
            data.room_id,
            data.guess@,
            catalog_model(catalog@),
        ).0,
        acts_model(acts@) == old(app_data).model().submit_guess(
            user_id,
            data.room_id,
            data.guess@,
            catalog_model(catalog@),
        ).1,
        final(app_data).model().wf(),
{
    let ghost m = old(app_data).model();
    let ghost sp = m.submit_guess(user_id, data.room_id, data.guess@, catalog_model(catalog@));
    let mut acts: Vec<Action> = Vec::new();
    if !is_user_exists(app_data, user_id) {
        proof {
            assert(acts_model(acts@) =~= sp.1);
        }
        return acts;
    }
    let idx = match app_data.find_room(data.room_id) {
        Option::Some(i) => i,
        Option::None => {
            proof {
                assert(acts_model(acts@) =~= sp.1);
            }
            return acts;
        },
    };
    proof {
        lemma_room_index(m, data.room_id, idx as int);
        assert(m.room(data.room_id).wf());
    }
    let midx = match app_data.game_states[idx].find_member(user_id) {
        Option::Some(i) => i,
        Option::None => {
            proof {
                assert(acts_model(acts@) =~= sp.1);
            }
            return acts;
        },
    };
    proof {
        lemma_member_index(m.room(data.room_id), user_id, midx as int);
    }
    let mut gs = app_data.game_states.remove(idx);
    let d = gs.user_data[midx].1;
    let target = choose_random_emote(catalog, gs.seed, d.emote);
    let lg = lowercase_chars(data.guess.as_str());
    let lt = lowercase_chars(target.name.as_str());
    let mask = mask_guess(&lg, &lt);
    let is_match = chars_eq(&lg, &lt);
    proof {
        let r = m.room(data.room_id);
        assert(d == r.member_data(user_id));
        assert(target.model() == catalog_model(catalog@)[seeded_choice(
            gs.seed,
            catalog_model(catalog@).len() as int,
            d.emote as int,
        )]);
        assert(is_match == guess_matches(data.guess@, target.name@));
    }
    if is_match {
        let d2 = UserGameData { score: d.score + CORRECT_SCORE_TENTHS, emote: d.emote + 1 };
        gs.user_data[midx] = (user_id, d2);
        proof {
            let r = m.room(data.room_id);
            lemma_with_member_data_wf(r, user_id, d2);
            assert(gs.model().members =~= r.with_member_data(user_id, d2).members);
            assert(gs.model() =~= r.with_member_data(user_id, d2));
            lemma_with_room_wf(m, data.room_id, gs.model());
        }
        acts.push(
            Action::Send {
                to: user_id,
                message: Response::GuessResponse(
                    GuessData { matched_chars: string_from_chars(&mask), score: d2.score },
                ),
            },
        );
        app_data.game_states.insert(idx, gs);
        proof {
            assert(acts@[0].model() =~~= sp.1[0]);
            assert(app_data.model().rooms =~= sp.0.rooms);
            assert(app_data.model() =~= sp.0);
            let r2 = m.room(data.room_id).with_member_data(user_id, d2);
            assert(sp.0.rooms[idx as int].room_id == data.room_id);
            lemma_room_index(sp.0, data.room_id, idx as int);
            assert(sp.0.room(data.room_id) == r2);
        }
        let ghost first = acts@;
        let mut next = send_random_emote(app_data, user_id, data.room_id, catalog);
        proof {
            lemma_acts_model_concat(first, next@);
            assert(acts_model(next@) =~= sp.1.subrange(1, 2));
        }
        acts.append(&mut next);
        let ghost first_two = acts@;
        let mut board = inform_room_game_state(app_data, data.room_id);
        proof {
            lemma_acts_model_concat(first_two, board@);
            assert(acts_model(board@) =~= sp.1.skip(2));
        }
        acts.append(&mut board);
        proof {
            assert(acts_model(acts@) =~= sp.1);
        }
        acts
    } else {
        let d2 = UserGameData { score: d.score + INCORRECT_SCORE_TENTHS, emote: d.emote };
        gs.user_data[midx] = (user_id, d2);
        proof {
            let r = m.room(data.room_id);
            lemma_with_member_data_wf(r, user_id, d2);
            assert(gs.model().members =~= r.with_member_data(user_id, d2).members);
            assert(gs.model() =~= r.with_member_data(user_id, d2));
            lemma_with_room_wf(m, data.room_id, gs.model());
        }
        acts.push(
            Action::Send {
                to: user_id,
                message: Response::GuessResponse(
                    GuessData { matched_chars: string_from_chars(&mask), score: d2.score },
                ),
            },
        );
        app_data.game_states.insert(idx, gs);
        proof {
            assert(acts@[0].model() =~~= sp.1[0]);
            assert(app_data.model().rooms =~= sp.0.rooms);
            assert(app_data.model() =~= sp.0);
            assert(acts_model(acts@) =~= sp.1);
        }
        acts
    }
}

/// Handles a skip: ignored without a registered caller, a live room and a
/// membership.  Costs 0.1, advances the counter, answers the requester
/// alone with an empty mask and the new score, then pushes the requester
/// its next emote.
pub fn handle_skip(
    app_data: &mut AppData,
    user_id: User,
    data: SkipData,
    catalog: &Vec<FinalEmote>,
) -> (acts: Vec<Action>)
    requires
        old(app_data).model().wf(),
        catalog@.len() > 0,
        old(app_data).model().score_step_ok(user_id, data.room_id),
    ensures
        final(app_data).model() == old(app_data).model().skip(
            user_id,
            data.room_id,
            catalog_model(catalog@),
        ).0,
        acts_model(acts@) == old(app_data).model().skip(
            user_id,
            data.room_id,
            catalog_model(catalog@),
        ).1,
        final(app_data).model().wf(),
{
    let ghost m = old(app_data).model();
    let ghost sp = m.skip(user_id, data.room_id, catalog_model(catalog@));
    let mut acts: Vec<Action> = Vec::new();
    if !is_user_exists(app_data, user_id) {
        proof {
            assert(acts_model(acts@) =~= sp.1);
        }
        return acts;
    }
    let idx = match app_data.find_room(data.room_id) {
        Option::Some(i) => i,
        Option::None => {
            proof {
                assert(acts_model(acts@) =~= sp.1);
            }
            return acts;
        },
    };
    proof {
        lemma_room_index(m, data.room_id, idx as int);
        assert(m.room(data.room_id).wf());
    }
    let midx = match app_data.game_states[idx].find_member(user_id) {
        Option::Some(i) => i,
        Option::None => {
            proof {
                assert(acts_model(acts@) =~= sp.1);
            }
            return acts;
        },
    };
    proof {
        lemma_member_index(m.room(data.room_id), user_id, midx as int);
    }
    let mut gs = app_data.game_states.remove(idx);
    let d = gs.user_data[midx].1;
    let d2 = UserGameData { score: d.score + SKIP_SCORE_TENTHS, emote: d.emote + 1 };
    gs.user_data[midx] = (user_id, d2);
    proof {
        let r = m.room(data.room_id);
        assert(d == r.member_data(user_id));
        lemma_with_member_data_wf(r, user_id, d2);
        assert(gs.model().members =~= r.with_member_data(user_id, d2).members);
        assert(gs.model() =~= r.with_member_data(user_id, d2));
        lemma_with_room_wf(m, data.room_id, gs.model());
    }
    acts.push(
        Action::Send {
            to: user_id,
            message: Response::GuessResponse(
                GuessData { matched_chars: String::new(), score: d2.score },
            ),
        },
    );
    app_data.game_states.insert(idx, gs);
    proof {
        assert(acts@[0].model() =~~= sp.1[0]);
        assert(app_data.model().rooms =~= sp.0.rooms);
        assert(app_data.model() =~= sp.0);
        let r2 = m.room(data.room_id).with_member_data(user_id, d2);
        assert(sp.0.rooms[idx as int].room_id == data.room_id);
        lemma_room_index(sp.0, data.room_id, idx as int);
        assert(sp.0.room(data.room_id) == r2);
    }
    let ghost first = acts@;
    let mut next = send_random_emote(app_data, user_id, data.room_id, catalog);
    proof {
        lemma_acts_model_concat(first, next@);
        assert(acts_model(next@) =~= sp.1.subrange(1, 2));
        assert(sp.1.subrange(0, 1) + sp.1.subrange(1, 2) =~= sp.1);
    }
    acts.append(&mut next);
    proof {
        assert(acts_model(acts@) =~= sp.1);
    }
    acts
}

/// Round end against the directory: against an absent room id this is a
/// no-op that produces no action and raises no error.  Otherwise the room
/// is removed, a brand-new single-member room (fresh id, seed `seed`) is
/// created for the same owner, and every former member is told the new
/// room's id.
pub fn game_end(app_data: &mut AppData, room_id: RoomID, seed: u64) -> (acts: Vec<Action>)
    requires
        old(app_data).model().wf(),
        old(app_data).next_room_id < u64::MAX,
    ensures
        final(app_data).model() == old(app_data).model().game_end(room_id, seed).0,
        acts_model(acts@) == old(app_data).model().game_end(room_id, seed).1,
        final(app_data).model().wf(),
{
    let ghost m = old(app_data).model();
    let ghost sp = m.game_end(room_id, seed);
    let mut acts: Vec<Action> = Vec::new();
    let idx = match app_data.find_room(room_id) {
        Option::Some(i) => i,
        Option::None => {
            proof {
                assert(acts_model(acts@) =~= sp.1);
            }
            return acts;
        },
    };
    proof {
        lemma_room_index(m, room_id, idx as int);
        lemma_wf_rooms_remove(m, idx as int);
    }
    let gs = app_data.game_states.remove(idx);
    let ghost m1 = AppModel { rooms: m.rooms.remove(idx as int), ..m };
    proof {
        assert(app_data.model() =~= m1);
    }
    let newrid = match create_room(app_data, gs.room_owner, seed) {
        Option::Some(r) => r,
        Option::None => {
            proof {
                assert(acts_model(acts@) =~= sp.1);
            }
            return acts;
        },
    };
    let ghost all = sp.1;
    let mut j: usize = 0;
    while j < gs.user_data.len()
        invariant
            j <= gs.user_data@.len(),
            all.len() == gs.user_data@.len(),
            forall|i: int|
                0 <= i < all.len() ==> all[i] == send_act(
                    gs.user_data@[i].0,
                    MsgModel::GameOver { new_room_id: newrid },
                ),
            acts_model(acts@) =~= all.take(j as int),
        decreases gs.user_data@.len() - j,
    {
        let ghost pre = acts@;
        acts.push(
            Action::Send {
                to: gs.user_data[j].0,
                message: Response::GameOver(GameOverData { new_room_id: newrid }),
            },
        );
        proof {
            let x = acts@.last();
            assert(x.model() =~~= all[j as int]);
            assert(all.take(j as int + 1) =~= all.take(j as int).push(x.model()));
            lemma_acts_model_snoc(
                Seq::empty(),
                pre,
                x,
                all.take(j as int),
                all.take(j as int + 1),
            );
            assert(acts_model(Seq::<Action>::empty()) =~= Seq::<ActModel>::empty());
            assert(acts_model(pre) =~= acts_model(Seq::<Action>::empty()) + all.take(j as int));
        }
        j = j + 1;
    }
    proof {
        assert(all.take(all.len() as int) =~= all);
    }
    acts
}

/// Handles the round-end timer firing: draws a fresh random seed for the
/// successor room and performs `game_end`.  The contract pins everything
/// but the pseudorandom seed's value.
pub fn handle_game_end(app_data: &mut AppData, room_id: RoomID) -> (acts: Vec<Action>)
    requires
        old(app_data).model().wf(),
        old(app_data).next_room_id < u64::MAX,
    ensures
        final(app_data).model().wf(),
        exists|seed: u64|
            final(app_data).model() == (#[trigger] old(app_data).model().game_end(
                room_id,
                seed,
            )).0 && acts_model(acts@) == old(app_data).model().game_end(room_id, seed).1,
{
    let seed = fresh_seed();
    let acts = game_end(app_data, room_id, seed);
    acts
}

/// The machine limits an inbound command needs: a fresh id for a creation,
/// a non-empty catalog and scoring headroom for the guessing commands.
pub open spec fn request_ok(m: AppModel, u: User, request: Request, catalog_len: nat) -> bool {
    match request {
        Request::CreateRoom => m.next_room_id < u64::MAX,
        Request::EditRoom(_) => true,
        Request::JoinRoom(_) => true,
        Request::StartGame(_) => catalog_len > 0,
        Request::SubmitGuess(d) => catalog_len > 0 && m.score_step_ok(u, d.room_id),
        Request::Skip(d) => catalog_len > 0 && m.score_step_ok(u, d.room_id),
    }
}

/// Maps a tagged inbound command to exactly one operation, passing the
/// authenticated user id resolved at connection time.
pub fn handle_room(
    app_data: &mut AppData,
    current_user: User,
    request: Request,
    catalog: &Vec<FinalEmote>,
) -> (acts: Vec<Action>)
    requires
        old(app_data).model().wf(),
        request_ok(old(app_data).model(), current_user, request, catalog@.len()),
    ensures
        final(app_data).model().wf(),
        match request {
            Request::CreateRoom => exists|seed: u64|
                final(app_data).model() == (#[trigger] old(app_data).model().handle_create_room(
                    current_user,
                    seed,
                )).0 && acts_model(acts@) == old(app_data).model().handle_create_room(
                    current_user,
                    seed,
                ).1,
            Request::EditRoom(d) => final(app_data).model() == old(app_data).model().edit_room(
                current_user,
                d.room_id,
                d.game_duration,
            ) && acts@.len() == 0,
            Request::JoinRoom(d) => final(app_data).model() == old(app_data).model().join_room(
                current_user,
                d.room_id,
            ).0 && acts_model(acts@) == old(app_data).model().join_room(
                current_user,
                d.room_id,
            ).1,
            Request::StartGame(d) => final(app_data).model() == old(app_data).model()
                && acts_model(acts@) == old(app_data).model().start_game(
                current_user,
                d.room_id,
                catalog_model(catalog@),
            ),
            Request::SubmitGuess(d) => final(app_data).model() == old(
                app_data,
            ).model().submit_guess(
                current_user,
                d.room_id,
                d.guess@,
                catalog_model(catalog@),
            ).0 && acts_model(acts@) == old(app_data).model().submit_guess(
                current_user,
                d.room_id,
                d.guess@,
                catalog_model(catalog@),
            ).1,
            Request::Skip(d) => final(app_data).model() == old(app_data).model().skip(
                current_user,
                d.room_id,
                catalog_model(catalog@),
            ).0 && acts_model(acts@) == old(app_data).model().skip(
                current_user,
                d.room_id,
                catalog_model(catalog@),
            ).1,
        },
{
    match request {
        Request::CreateRoom => handle_create_room(app_data, current_user),
        Request::EditRoom(d) => {
            handle_edit_room(app_data, current_user, d);
            Vec::new()
        },
        Request::JoinRoom(d) => handle_join_room(app_data, current_user, d),
        Request::StartGame(d) => handle_start_game(app_data, current_user, d, catalog),
        Request::SubmitGuess(d) => handle_submit_guess(app_data, current_user, d, catalog),
        Request::Skip(d) => handle_skip(app_data, current_user, d, catalog),
    }
}

/// Linear scan of a registry slice.
fn find_user_in(users: &Vec<UserData>, user: User) -> (r: Option<usize>)
    ensures
        match r {
            Some(i) => i < users@.len() && users@[i as int].user == user && user_in(
                users_model(users@),
                user,
            ),
            None => !user_in(users_model(users@), user),
        },
{
    let mut i: usize = 0;
    while i < users.len()
        invariant
            i <= users@.len(),
            forall|j: int| 0 <= j < i ==> users@[j].user != user,
        decreases users@.len() - i,
    {
        if users[i].user.0 == user.0 {
            proof {
                assert(users_model(users@)[i as int].user == user);
            }
            return Some(i);
        }
        i = i + 1;
    }
    proof {
        assert forall|k: int|
            0 <= k < users_model(users@).len() implies users_model(users@)[k].user != user by {
            assert(users_model(users@)[k] == users@[k].model());
        }
    }
    None
}

/// First room (in directory order) that `user` owns.
fn find_first_owned(game_states: &Vec<GameState>, user: User) -> (r: Option<usize>)
    ensures
        match r {
            Some(i) => i < game_states@.len() && game_states@[i as int].room_owner == user
                && forall|j: int| 0 <= j < i ==> game_states@[j].room_owner != user,
            None => forall|j: int|
                0 <= j < game_states@.len() ==> game_states@[j].room_owner != user,
        },
{
    let mut i: usize = 0;
    while i < game_states.len()
        invariant
            i <= game_states@.len(),
            forall|j: int| 0 <= j < i ==> game_states@[j].room_owner != user,
        decreases game_states@.len() - i,
    {
        if game_states[i].room_owner.0 == user.0 {
            return Some(i);
        }
        i = i + 1;
    }
    None
}

} // verus!
