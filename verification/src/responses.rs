//! Outbound messages, and the actions a transition asks the shell to
//! perform.

use vstd::assert_seqs_equal;
use vstd::prelude::*;

use crate::data::{RoomID, User};
use crate::model::{ActModel, MsgModel};

verus! {

/// The user-visible error taxonomy.
#[derive(Clone, Copy, PartialEq, Eq, Structural, Debug)]
pub enum ErrorDataType {
    AuthFailed,
    RoomJoinFailed,
    RoomDisbanded,
}

#[derive(Debug)]
pub struct ErrorData {
    pub error_type: ErrorDataType,
    pub error_msg: String,
}

/// A masked hint for an emote name, with the emote's image URL.
#[derive(Debug)]
pub struct EmoteResponse {
    pub matched_chars: String,
    pub url: String,
}

#[derive(Debug)]
pub struct NewUserData {
    pub user_id: User,
}

/// The roster broadcast: who is in the room, and whether the recipient owns
/// it.
#[derive(Debug)]
pub struct RoomJoinData {
    pub room_id: RoomID,
    pub is_owner: bool,
    pub player_list: Vec<String>,
}

/// The scoreboard: display name and score (in tenths) of every member.
#[derive(Debug)]
pub struct GameUpdateData {
    pub scores: Vec<(String, i64)>,
}

#[derive(Debug)]
pub struct EmoteData {
    pub emote: EmoteResponse,
}

/// Reply to a guess or a skip: the masked comparison and the updated score
/// (in tenths).
#[derive(Debug)]
pub struct GuessData {
    pub matched_chars: String,
    pub score: i64,
}

#[derive(Debug)]
pub struct GameOverData {
    pub new_room_id: RoomID,
}

/// A tagged outbound message.
#[derive(Debug)]
pub enum Response {
    NewUser(NewUserData),
    RoomJoin(RoomJoinData),
    Emote(EmoteData),
    GuessResponse(GuessData),
    GameStarted,
    GameOver(GameOverData),
    GameUpdate(GameUpdateData),
    Error(ErrorData),
}

/// One thing the shell is asked to do after a transition: deliver a message
/// to a user (best effort; a gone recipient is a silent no-op), or arm the
/// round-end timer of a room.
#[derive(Debug)]
pub enum Action {
    Send { to: User, message: Response },
    ScheduleRoundEnd { room_id: RoomID, duration_secs: u64 },
}

impl Response {
    /// Mathematical view, with every string as its character sequence.
    pub open spec fn model(self) -> MsgModel {
        match self {
            Response::NewUser(d) => MsgModel::NewUser { user_id: d.user_id },
            Response::RoomJoin(d) => MsgModel::RoomJoin {
                room_id: d.room_id,
                is_owner: d.is_owner,
                player_list: d.player_list@.map_values(|s: String| s@),
            },
            Response::Emote(d) => MsgModel::Emote {
                matched_chars: d.emote.matched_chars@,
                url: d.emote.url@,
            },
            Response::GuessResponse(d) => MsgModel::GuessResponse {
                matched_chars: d.matched_chars@,
                score: d.score,
            },
            Response::GameStarted => MsgModel::GameStarted,
            Response::GameOver(d) => MsgModel::GameOver { new_room_id: d.new_room_id },
            Response::GameUpdate(d) => MsgModel::GameUpdate {
                scores: d.scores@.map_values(|p: (String, i64)| (p.0@, p.1)),
            },
            Response::Error(d) => MsgModel::Error {
                error_type: d.error_type,
                error_msg: d.error_msg@,
            },
        }
    }
}

impl Action {
    pub open spec fn model(self) -> ActModel {
        match self {
            Action::Send { to, message } => ActModel::Send { to, msg: message.model() },
            Action::ScheduleRoundEnd { room_id, duration_secs } => ActModel::ScheduleRoundEnd {
                room_id,
                duration_secs,
            },
        }
    }
}

/// Mathematical view of a whole action list.
pub open spec fn acts_model(s: Seq<Action>) -> Seq<ActModel> {
    s.map_values(|a: Action| a.model())
}

/// The model of a concatenation is the concatenation of the models.
pub proof fn lemma_acts_model_concat(a: Seq<Action>, b: Seq<Action>)
    ensures
        acts_model(a + b) == acts_model(a) + acts_model(b),
{
    assert(acts_model(a).len() == a.len());
    assert(acts_model(b).len() == b.len());
    assert_seqs_equal!(acts_model(a + b) == acts_model(a) + acts_model(b), i => {
        assert(acts_model(a + b)[i] == (a + b)[i].model());
        if i < a.len() {
            assert((a + b)[i] == a[i]);
            assert(acts_model(a)[i] == a[i].model());
            assert((acts_model(a) + acts_model(b))[i] == acts_model(a)[i]);
        } else {
            assert((a + b)[i] == b[i - a.len()]);
            assert(acts_model(b)[i - a.len()] == b[i - a.len()].model());
            assert((acts_model(a) + acts_model(b))[i] == acts_model(b)[i - a.len()]);
        }
    });
}

/// Appending an action whose model is the next element extends the modelled
/// action list by exactly that element.
pub proof fn lemma_acts_model_snoc(
    base: Seq<Action>,
    pre: Seq<Action>,
    x: Action,
    front: Seq<ActModel>,
    tail: Seq<ActModel>,
)
    requires
        acts_model(pre) == acts_model(base) + front,
        tail == front.push(x.model()),
    ensures
        acts_model(pre.push(x)) == acts_model(base) + tail,
{
    assert(acts_model(pre).len() == pre.len());
    assert(acts_model(base).len() == base.len());
    assert(pre.len() == base.len() + front.len());
    assert_seqs_equal!(acts_model(pre.push(x)) == acts_model(base) + tail, i => {
        assert(acts_model(pre.push(x))[i] == pre.push(x)[i].model());
        if i < pre.len() {
            assert(pre.push(x)[i] == pre[i]);
            assert(acts_model(pre)[i] == pre[i].model());
            assert(acts_model(pre)[i] == (acts_model(base) + front)[i]);
            if i < base.len() {
                assert((acts_model(base) + front)[i] == acts_model(base)[i]);
                assert((acts_model(base) + tail)[i] == acts_model(base)[i]);
            } else {
                assert((acts_model(base) + front)[i] == front[i - base.len()]);
                assert(tail[i - base.len()] == front[i - base.len()]);
                assert((acts_model(base) + tail)[i] == tail[i - base.len()]);
            }
        } else {
            assert(pre.push(x)[i] == x);
            assert(tail[i - base.len()] == x.model());
            assert((acts_model(base) + tail)[i] == tail[i - base.len()]);
        }
    });
}

} // verus!
