//! System-wide properties, stated and proved over the models.

use vstd::prelude::*;

use crate::data::{
    RoomID, User, UserGameData, CORRECT_SCORE_TENTHS, INCORRECT_SCORE_TENTHS, SKIP_SCORE_TENTHS,
};
use crate::model::{
    lemma_leave_all_preserves_wf, lemma_leave_rooms_after_count, lemma_member_count_update,
    lemma_member_count_zero, lemma_room_index, lemma_with_member_data_wf, member_count, ActModel,
    AppModel, EmoteModel, RoomModel,
};
use crate::sequencer::{guess_matches, seeded_choice};

verus! {

/// The sequencer is a pure function: repeated picks with the same seed,
/// catalog and advancement counter name the identical catalog entry,
/// regardless of wall-clock time, process, or calling order.
pub proof fn lemma_pick_pure(
    seed: u64,
    catalog: Seq<EmoteModel>,
    advancement: u32,
    r1: EmoteModel,
    r2: EmoteModel,
)
    requires
        catalog.len() > 0,
        r1 == catalog[seeded_choice(seed, catalog.len() as int, advancement as int)],
        r2 == catalog[seeded_choice(seed, catalog.len() as int, advancement as int)],
    ensures
        r1 == r2,
{
}

/// The sequence is reproducible from cold start given only the seed and
/// the target index: after a correct guess advances a member from `a` to
/// `a + 1`, the emote pushed next is the catalog entry at the seeded draw
/// for `a + 1` — the same entry an independent cold-start simulation of
/// `a + 1` warm-up draws would name, whatever was drawn before.
pub proof fn lemma_advance_reproducible(
    m: AppModel,
    u: User,
    rid: RoomID,
    guess: Seq<char>,
    catalog: Seq<EmoteModel>,
)
    requires
        m.wf(),
        catalog.len() > 0,
        m.score_step_ok(u, rid),
        m.has_user(u),
        m.has_room(rid),
        m.room(rid).has_member(u),
        guess_matches(guess, catalog[seeded_choice(
            m.room(rid).seed,
            catalog.len() as int,
            m.room(rid).member_data(u).emote as int,
        )].name),
    ensures
        ({
            let a = m.room(rid).member_data(u).emote;
            m.submit_guess(u, rid, guess, catalog).1[1] == ActModel::Send {
                to: u,
                msg: crate::model::emote_msg(catalog, m.room(rid).seed, (a + 1) as u32),
            }
        }),
{
}

/// A user is never inserted into two rooms: any join that touches the
/// directory — the caller registered and the target room live — leaves the
/// joiner a member of at most one room, whatever it occupied before.
pub proof fn lemma_join_single_membership(m: AppModel, u: User, rid: RoomID)
    requires
        m.wf(),
        m.has_user(u),
        m.has_room(rid),
    ensures
        forall|i: int, j: int|
            0 <= i < j < m.join_room(u, rid).0.rooms.len() ==> !(m.join_room(
                u,
                rid,
            ).0.rooms[i].has_member(u) && m.join_room(u, rid).0.rooms[j].has_member(u)),
        member_count(m.join_room(u, rid).0.rooms, u) <= 1,
{
    let (m1, acts1) = m.leave_all(u);
    lemma_leave_all_preserves_wf(m, u);
    let m2 = m.join_room(u, rid).0;
    lemma_member_count_zero(m1.rooms, u);
    if !m1.has_room(rid) {
        assert(m2 == m1);
    } else {
        let x = m1.room_index(rid);
        assert(0 <= x < m1.rooms.len() && m1.rooms[x].room_id == rid);
        assert forall|i: int, j: int|
            0 <= i < j < m2.rooms.len() implies !(m2.rooms[i].has_member(u)
            && m2.rooms[j].has_member(u)) by {
            if i != x {
                assert(m2.rooms[i] == m1.rooms[i]);
                assert(!m1.rooms[i].has_member(u));
            }
            if j != x {
                assert(m2.rooms[j] == m1.rooms[j]);
                assert(!m1.rooms[j].has_member(u));
            }
        }
        let r2 = RoomModel {
            members: m1.room(rid).members.push((u, UserGameData { score: 0, emote: 0 })),
            ..m1.room(rid)
        };
        lemma_member_count_update(m1.rooms, x, r2, u);
    }
}

/// A join never raises anyone else's membership count: a user standing in
/// at most one roster still stands in at most one after any other user's
/// join.  Together with the law above, any sequence of joins leaves every
/// joiner in at most one roster.
pub proof fn lemma_join_preserves_single_membership(m: AppModel, u: User, rid: RoomID, v: User)
    requires
        m.wf(),
        v != u,
        member_count(m.rooms, v) <= 1,
    ensures
        member_count(m.join_room(u, rid).0.rooms, v) <= 1,
{
    if !m.has_user(u) || !m.has_room(rid) {
    } else {
        let (m1, acts1) = m.leave_all(u);
        lemma_leave_rooms_after_count(m.rooms, u, v);
        if m1.has_room(rid) {
            let x = m1.room_index(rid);
            let r = m1.room(rid);
            let r2 = RoomModel {
                members: r.members.push((u, UserGameData { score: 0, emote: 0 })),
                ..r
            };
            assert(r2.has_member(v) == r.has_member(v)) by {
                if r2.has_member(v) {
                    let k = choose|k: int|
                        0 <= k < r2.members.len() && r2.members[k].0 == v;
                    assert(k < r.members.len());
                    assert(r.members[k].0 == v);
                }
                if r.has_member(v) {
                    let k = choose|k: int| 0 <= k < r.members.len() && r.members[k].0 == v;
                    assert(r2.members[k].0 == v);
                }
            }
            lemma_member_count_update(m1.rooms, x, r2, v);
        }
    }
}

/// A guess that matches the target case-insensitively raises the guesser's
/// score by exactly +1.0 (ten tenths) and advances its counter by one; any
/// other guess lowers the score by exactly 0.2 and leaves the counter
/// unchanged.
pub proof fn lemma_submit_guess_scoring(
    m: AppModel,
    u: User,
    rid: RoomID,
    guess: Seq<char>,
    catalog: Seq<EmoteModel>,
)
    requires
        m.wf(),
        catalog.len() > 0,
        m.score_step_ok(u, rid),
        m.has_user(u),
        m.has_room(rid),
        m.room(rid).has_member(u),
    ensures
        ({
            let m2 = m.submit_guess(u, rid, guess, catalog).0;
            let d = m.room(rid).member_data(u);
            let d2 = m2.room(rid).member_data(u);
            let target = catalog[seeded_choice(
                m.room(rid).seed,
                catalog.len() as int,
                d.emote as int,
            )];
            &&& m2.has_room(rid)
            &&& guess_matches(guess, target.name) ==> d2.score == d.score
                + CORRECT_SCORE_TENTHS && d2.emote == d.emote + 1
            &&& !guess_matches(guess, target.name) ==> d2.score == d.score
                + INCORRECT_SCORE_TENTHS && d2.emote == d.emote
        }),
{
    let r = m.room(rid);
    let x = m.room_index(rid);
    let m2 = m.submit_guess(u, rid, guess, catalog).0;
    let d = r.member_data(u);
    let target = catalog[seeded_choice(r.seed, catalog.len() as int, d.emote as int)];
    let d2 = if guess_matches(guess, target.name) {
        UserGameData { score: (d.score + CORRECT_SCORE_TENTHS) as i64, emote: (d.emote + 1) as u32 }
    } else {
        UserGameData { score: (d.score + INCORRECT_SCORE_TENTHS) as i64, emote: d.emote }
    };
    lemma_with_member_data_wf(r, u, d2);
    assert(m2.rooms[x] == r.with_member_data(u, d2));
    lemma_room_index(m2, rid, x);
    assert(m2.room(rid) == r.with_member_data(u, d2));
}

/// A skip always lowers the requester's score by exactly 0.1 and advances
/// its counter by one, regardless of prior guess outcomes.
pub proof fn lemma_skip_scoring(m: AppModel, u: User, rid: RoomID, catalog: Seq<EmoteModel>)
    requires
        m.wf(),
        catalog.len() > 0,
        m.score_step_ok(u, rid),
        m.has_user(u),
        m.has_room(rid),
        m.room(rid).has_member(u),
    ensures
        ({
            let m2 = m.skip(u, rid, catalog).0;
            let d = m.room(rid).member_data(u);
            let d2 = m2.room(rid).member_data(u);
            &&& m2.has_room(rid)
            &&& d2.score == d.score + SKIP_SCORE_TENTHS
            &&& d2.emote == d.emote + 1
        }),
{
    let r = m.room(rid);
    let x = m.room_index(rid);
    let m2 = m.skip(u, rid, catalog).0;
    let d = r.member_data(u);
    let d2 = UserGameData { score: (d.score + SKIP_SCORE_TENTHS) as i64, emote: (d.emote + 1) as u32 };
    lemma_with_member_data_wf(r, u, d2);
    assert(m2.rooms[x] == r.with_member_data(u, d2));
    lemma_room_index(m2, rid, x);
    assert(m2.room(rid) == r.with_member_data(u, d2));
}

/// Round-end timer firing against a room id that no longer exists in the
/// directory is a no-op: the state is unchanged and no message or error is
/// produced.
pub proof fn lemma_game_end_absent_room(m: AppModel, rid: RoomID, seed: u64)
    requires
        !m.has_room(rid),
    ensures
        m.game_end(rid, seed).0 == m,
        m.game_end(rid, seed).1 == Seq::<ActModel>::empty(),
{
}

} // verus!
