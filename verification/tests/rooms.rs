//! The room directory and round state machine, driven through whole
//! games.

use emote_guess::data::{AppData, GameStateView, JWTClaim, RoomID, TwitchUserData, User};
use emote_guess::handler::{
    create_room, game_end, handle_create_room, handle_create_user, handle_delete_user,
    handle_edit_room, handle_join_room, handle_room, handle_skip, handle_start_game,
    handle_submit_guess, is_room_exists, is_user_exists, is_user_in_room, is_user_owner_of_room,
    leave_all_rooms,
};
use emote_guess::requests::{
    EditRoomData, JoinRoomData, Request, SkipData, StartGameData, SubmitGuessData,
};
use emote_guess::responses::{Action, ErrorDataType, Response};
use emote_guess::sequencer::MASK_GLYPH;
use emote_guess::seventv::FinalEmote;

fn claim(id: &str, login: &str) -> JWTClaim {
    JWTClaim {
        data: TwitchUserData {
            id: id.to_string(),
            login: login.to_string(),
            display_name: login.to_string(),
        },
    }
}

fn catalog_one() -> Vec<FinalEmote> {
    vec![FinalEmote {
        name: "PepeHands".to_string(),
        url: "https://cdn.example/pepehands.gif".to_string(),
    }]
}

/// Memberships of a user over the whole directory.
fn memberships(app: &AppData, u: User) -> usize {
    app.game_states
        .iter()
        .filter(|gs| gs.user_data.iter().any(|m| m.0 == u))
        .count()
}

fn score_of(app: &AppData, rid: RoomID, u: User) -> i64 {
    let gs = app.game_states.iter().find(|gs| gs.room_id == rid).unwrap();
    gs.user_data.iter().find(|m| m.0 == u).unwrap().1.score
}

fn advancement_of(app: &AppData, rid: RoomID, u: User) -> u32 {
    let gs = app.game_states.iter().find(|gs| gs.room_id == rid).unwrap();
    gs.user_data.iter().find(|m| m.0 == u).unwrap().1.emote
}

#[test]
fn test_create_user_greets_and_registers() {
    let mut app = AppData::new();
    let (u, acts) = handle_create_user(&mut app, claim("1", "alice"));
    assert!(is_user_exists(&app, u));
    assert_eq!(acts.len(), 1);
    match &acts[0] {
        Action::Send {
            to,
            message: Response::NewUser(d),
        } => {
            assert_eq!(*to, u);
            assert_eq!(d.user_id, u);
        }
        other => panic!("unexpected action: {:?}", other),
    }
}

#[test]
fn test_create_room_unregistered_owner_fails_silently() {
    let mut app = AppData::new();
    assert_eq!(create_room(&mut app, User(99), 7), None);
    assert!(app.game_states.is_empty());
}

#[test]
fn test_create_room_roster() {
    let mut app = AppData::new();
    let (o, _) = handle_create_user(&mut app, claim("1", "owner"));
    let rid = create_room(&mut app, o, 7).unwrap();
    assert!(is_room_exists(&app, rid));
    let gs = &app.game_states[0];
    assert_eq!(gs.room_owner, o);
    assert_eq!(gs.seed, 7);
    assert_eq!(gs.user_data.len(), 1);
    assert_eq!(gs.user_data[0].0, o);
    assert_eq!(gs.user_data[0].1.score, 0);
    assert_eq!(gs.user_data[0].1.emote, 0);
}

#[test]
fn test_handle_create_room_replies_to_creator() {
    let mut app = AppData::new();
    let (o, _) = handle_create_user(&mut app, claim("1", "owner"));
    let acts = handle_create_room(&mut app, o);
    assert_eq!(acts.len(), 1);
    match &acts[0] {
        Action::Send {
            to,
            message: Response::RoomJoin(d),
        } => {
            assert_eq!(*to, o);
            assert!(d.is_owner);
            assert_eq!(d.player_list, vec!["owner".to_string()]);
        }
        other => panic!("unexpected action: {:?}", other),
    }
}

#[test]
fn test_join_absent_room_fails() {
    let mut app = AppData::new();
    let (u, _) = handle_create_user(&mut app, claim("1", "alice"));
    let acts = handle_join_room(&mut app, u, JoinRoomData { room_id: RoomID(123) });
    assert_eq!(acts.len(), 1);
    match &acts[0] {
        Action::Send {
            to,
            message: Response::Error(e),
        } => {
            assert_eq!(*to, u);
            assert_eq!(e.error_type, ErrorDataType::RoomJoinFailed);
            assert_eq!(e.error_msg, "Room does not exist");
        }
        other => panic!("unexpected action: {:?}", other),
    }
}

#[test]
fn test_join_single_membership() {
    let mut app = AppData::new();
    let (o1, _) = handle_create_user(&mut app, claim("1", "owner1"));
    let (o2, _) = handle_create_user(&mut app, claim("2", "owner2"));
    let (u, _) = handle_create_user(&mut app, claim("3", "joiner"));
    let r1 = create_room(&mut app, o1, 1).unwrap();
    let r2 = create_room(&mut app, o2, 2).unwrap();
    handle_join_room(&mut app, u, JoinRoomData { room_id: r1 });
    assert_eq!(memberships(&app, u), 1);
    handle_join_room(&mut app, u, JoinRoomData { room_id: r2 });
    assert_eq!(memberships(&app, u), 1);
    handle_join_room(&mut app, u, JoinRoomData { room_id: r2 });
    assert_eq!(memberships(&app, u), 1);
    // The first room keeps only its owner.
    let gs1 = app.game_states.iter().find(|gs| gs.room_id == r1).unwrap();
    assert_eq!(gs1.user_data.len(), 1);
}

#[test]
fn test_owner_joining_elsewhere_disbands_own_room() {
    let mut app = AppData::new();
    let (o, _) = handle_create_user(&mut app, claim("1", "owner"));
    let (m, _) = handle_create_user(&mut app, claim("2", "member"));
    let (o2, _) = handle_create_user(&mut app, claim("3", "other"));
    let r1 = create_room(&mut app, o, 1).unwrap();
    let r2 = create_room(&mut app, o2, 2).unwrap();
    handle_join_room(&mut app, m, JoinRoomData { room_id: r1 });
    let acts = handle_join_room(&mut app, o, JoinRoomData { room_id: r2 });
    assert!(!is_room_exists(&app, r1));
    // The evicted co-member is told the room disbanded.
    let disbanded: Vec<&Action> = acts
        .iter()
        .filter(|a| {
            matches!(
                a,
                Action::Send { message: Response::Error(e), .. }
                    if e.error_type == ErrorDataType::RoomDisbanded
            )
        })
        .collect();
    assert_eq!(disbanded.len(), 1);
    match disbanded[0] {
        Action::Send { to, .. } => assert_eq!(*to, m),
        _ => unreachable!(),
    }
}

#[test]
fn test_leave_all_rooms_notifies_remaining() {
    let mut app = AppData::new();
    let (o, _) = handle_create_user(&mut app, claim("1", "owner"));
    let (m, _) = handle_create_user(&mut app, claim("2", "member"));
    let r1 = create_room(&mut app, o, 1).unwrap();
    handle_join_room(&mut app, m, JoinRoomData { room_id: r1 });
    let acts = leave_all_rooms(&mut app, m);
    // The remaining member (the owner) is told the updated roster.
    assert_eq!(acts.len(), 1);
    match &acts[0] {
        Action::Send {
            to,
            message: Response::RoomJoin(d),
        } => {
            assert_eq!(*to, o);
            assert!(d.is_owner);
            assert_eq!(d.player_list, vec!["owner".to_string()]);
        }
        other => panic!("unexpected action: {:?}", other),
    }
    assert_eq!(memberships(&app, m), 0);
}

#[test]
fn test_edit_room_changes_next_round_duration() {
    let mut app = AppData::new();
    let (o, _) = handle_create_user(&mut app, claim("1", "owner"));
    let rid = create_room(&mut app, o, 1).unwrap();
    handle_edit_room(&mut app, o, EditRoomData { room_id: rid, game_duration: 90 });
    assert_eq!(app.game_states[0].duration_secs, 90);
    let acts = handle_start_game(&app, o, StartGameData { room_id: rid }, &catalog_one());
    match &acts[0] {
        Action::ScheduleRoundEnd { room_id, duration_secs } => {
            assert_eq!(*room_id, rid);
            assert_eq!(*duration_secs, 90);
        }
        other => panic!("unexpected action: {:?}", other),
    }
}

#[test]
fn test_edit_room_absent_is_noop() {
    let mut app = AppData::new();
    let (o, _) = handle_create_user(&mut app, claim("1", "owner"));
    handle_edit_room(&mut app, o, EditRoomData { room_id: RoomID(9), game_duration: 90 });
    assert!(app.game_states.is_empty());
}

#[test]
fn test_start_game_by_non_owner_only_arms_timer() {
    let mut app = AppData::new();
    let (o, _) = handle_create_user(&mut app, claim("1", "owner"));
    let (m, _) = handle_create_user(&mut app, claim("2", "member"));
    let rid = create_room(&mut app, o, 1).unwrap();
    handle_join_room(&mut app, m, JoinRoomData { room_id: rid });
    let acts = handle_start_game(&app, m, StartGameData { room_id: rid }, &catalog_one());
    assert_eq!(acts.len(), 1);
    assert!(matches!(acts[0], Action::ScheduleRoundEnd { .. }));
}

#[test]
fn test_skip_scoring() {
    let mut app = AppData::new();
    let (o, _) = handle_create_user(&mut app, claim("1", "owner"));
    let rid = create_room(&mut app, o, 1).unwrap();
    let acts = handle_skip(&mut app, o, SkipData { room_id: rid }, &catalog_one());
    assert_eq!(score_of(&app, rid, o), -1);
    assert_eq!(advancement_of(&app, rid, o), 1);
    assert_eq!(acts.len(), 2);
    match &acts[0] {
        Action::Send {
            to,
            message: Response::GuessResponse(g),
        } => {
            assert_eq!(*to, o);
            assert_eq!(g.matched_chars, "");
            assert_eq!(g.score, -1);
        }
        other => panic!("unexpected action: {:?}", other),
    }
    assert!(matches!(
        &acts[1],
        Action::Send { message: Response::Emote(_), .. }
    ));
    // A second skip keeps stepping by exactly one tenth, whatever came
    // before.
    handle_skip(&mut app, o, SkipData { room_id: rid }, &catalog_one());
    assert_eq!(score_of(&app, rid, o), -2);
    assert_eq!(advancement_of(&app, rid, o), 2);
}

#[test]
fn test_wrong_guess_masks_case_insensitively() {
    let mut app = AppData::new();
    let (o, _) = handle_create_user(&mut app, claim("1", "owner"));
    let rid = create_room(&mut app, o, 1).unwrap();
    // One wrong character, shouted: the comparison is case-folded on both
    // sides, and the reply shows the folded target at matching positions.
    let acts = handle_submit_guess(
        &mut app,
        o,
        SubmitGuessData { room_id: rid, guess: "PEPEHXNDS".to_string() },
        &catalog_one(),
    );
    assert_eq!(score_of(&app, rid, o), -2);
    assert_eq!(advancement_of(&app, rid, o), 0);
    assert_eq!(acts.len(), 1);
    match &acts[0] {
        Action::Send {
            to,
            message: Response::GuessResponse(g),
        } => {
            assert_eq!(*to, o);
            assert_eq!(g.matched_chars, format!("pepeh{}nds", MASK_GLYPH));
            assert_eq!(g.score, -2);
        }
        other => panic!("unexpected action: {:?}", other),
    }
}

#[test]
fn test_game_end_absent_room_is_noop() {
    let mut app = AppData::new();
    let (o, _) = handle_create_user(&mut app, claim("1", "owner"));
    let rid = create_room(&mut app, o, 1).unwrap();
    let before_rooms = app.game_states.len();
    let before_users = app.users.len();
    let acts = game_end(&mut app, RoomID(4242), 99);
    assert!(acts.is_empty());
    assert_eq!(app.game_states.len(), before_rooms);
    assert_eq!(app.users.len(), before_users);
    assert!(is_room_exists(&app, rid));
}

#[test]
fn test_delete_user_dissolves_owned_room() {
    let mut app = AppData::new();
    let (o, _) = handle_create_user(&mut app, claim("1", "owner"));
    let rid = create_room(&mut app, o, 1).unwrap();
    handle_delete_user(&mut app, o);
    assert!(!is_user_exists(&app, o));
    assert!(!is_room_exists(&app, rid));
    // Idempotent.
    handle_delete_user(&mut app, o);
    assert!(!is_user_exists(&app, o));
}

#[test]
fn test_room_predicates_and_view() {
    let mut app = AppData::new();
    let (o, _) = handle_create_user(&mut app, claim("1", "owner"));
    let (m, _) = handle_create_user(&mut app, claim("2", "member"));
    let rid = create_room(&mut app, o, 1).unwrap();
    handle_join_room(&mut app, m, JoinRoomData { room_id: rid });
    let gs = &app.game_states[0];
    assert!(is_user_in_room(gs, o));
    assert!(is_user_in_room(gs, m));
    assert!(!is_user_in_room(gs, User(99)));
    assert!(is_user_owner_of_room(gs, o));
    assert!(!is_user_owner_of_room(gs, m));
    let view = GameStateView::from(gs);
    assert_eq!(view.room_id, rid);
    assert_eq!(view.room_owner, o);
}

#[test]
fn test_router_dispatches() {
    let mut app = AppData::new();
    let (o, _) = handle_create_user(&mut app, claim("1", "owner"));
    let acts = handle_room(&mut app, o, Request::CreateRoom, &catalog_one());
    assert_eq!(app.game_states.len(), 1);
    assert_eq!(acts.len(), 1);
    let rid = app.game_states[0].room_id;
    let acts = handle_room(
        &mut app,
        o,
        Request::SubmitGuess(SubmitGuessData { room_id: rid, guess: "wrong".to_string() }),
        &catalog_one(),
    );
    assert_eq!(score_of(&app, rid, o), -2);
    assert_eq!(acts.len(), 1);
    let acts = handle_room(
        &mut app,
        o,
        Request::Skip(SkipData { room_id: rid }),
        &catalog_one(),
    );
    assert_eq!(score_of(&app, rid, o), -3);
    assert_eq!(acts.len(), 2);
}

/// The whole round of the design: create, join, start, correct guess,
/// wrong guess, timer fire.
#[test]
fn test_full_round_scenario() {
    let mut app = AppData::new();
    let (o, _) = handle_create_user(&mut app, claim("1", "ownerlogin"));
    let (u, _) = handle_create_user(&mut app, claim("2", "userlogin"));
    let catalog = catalog_one();

    let rid = create_room(&mut app, o, 7).unwrap();

    // U joins: both O and U get the two-name roster, O flagged owner.
    let acts = handle_join_room(&mut app, u, JoinRoomData { room_id: rid });
    assert_eq!(acts.len(), 2);
    for (recipient, owner_flag) in [(o, true), (u, false)] {
        let found = acts.iter().any(|a| {
            matches!(
                a,
                Action::Send { to, message: Response::RoomJoin(d) }
                    if *to == recipient
                        && d.is_owner == owner_flag
                        && d.player_list
                            == vec!["ownerlogin".to_string(), "userlogin".to_string()]
            )
        });
        assert!(found);
    }

    // O starts: the timer is armed and both members get an emote.
    let acts = handle_start_game(&app, o, StartGameData { room_id: rid }, &catalog);
    assert_eq!(acts.len(), 3);
    assert!(matches!(acts[0], Action::ScheduleRoundEnd { .. }));
    let emote_recipients: Vec<User> = acts[1..]
        .iter()
        .map(|a| match a {
            Action::Send { to, message: Response::Emote(e) } => {
                let expected: String = "PepeHands".chars().map(|_| MASK_GLYPH).collect();
                assert_eq!(e.emote.matched_chars, expected);
                assert_eq!(e.emote.url, "https://cdn.example/pepehands.gif");
                *to
            }
            other => panic!("unexpected action: {:?}", other),
        })
        .collect();
    assert_eq!(emote_recipients, vec![o, u]);

    // U guesses right, case-insensitively: +1.0, scoreboard to the room,
    // and a fresh emote for U.
    let acts = handle_submit_guess(
        &mut app,
        u,
        SubmitGuessData { room_id: rid, guess: "pepehands".to_string() },
        &catalog,
    );
    assert_eq!(score_of(&app, rid, u), 10);
    assert_eq!(advancement_of(&app, rid, u), 1);
    match &acts[0] {
        Action::Send { to, message: Response::GuessResponse(g) } => {
            assert_eq!(*to, u);
            assert_eq!(g.matched_chars, "pepehands");
            assert_eq!(g.score, 10);
        }
        other => panic!("unexpected action: {:?}", other),
    }
    assert!(matches!(
        &acts[1],
        Action::Send { to, message: Response::Emote(_) } if *to == u
    ));
    let updates: Vec<&Action> = acts[2..].iter().collect();
    assert_eq!(updates.len(), 2);
    for a in updates {
        match a {
            Action::Send { message: Response::GameUpdate(d), .. } => {
                assert!(d
                    .scores
                    .contains(&("userlogin".to_string(), 10)));
                assert!(d.scores.contains(&("ownerlogin".to_string(), 0)));
            }
            other => panic!("unexpected action: {:?}", other),
        }
    }

    // U guesses wrong: -0.2, reply to U alone, no scoreboard, no new
    // emote, counter kept.
    let acts = handle_submit_guess(
        &mut app,
        u,
        SubmitGuessData { room_id: rid, guess: "kekw".to_string() },
        &catalog,
    );
    assert_eq!(score_of(&app, rid, u), 8);
    assert_eq!(advancement_of(&app, rid, u), 1);
    assert_eq!(acts.len(), 1);
    match &acts[0] {
        Action::Send { to, message: Response::GuessResponse(g) } => {
            assert_eq!(*to, u);
            assert_eq!(g.score, 8);
        }
        other => panic!("unexpected action: {:?}", other),
    }

    // The timer fires: the room is replaced by a fresh one for O, and
    // both former members are told the new id.
    let acts = game_end(&mut app, rid, 1234);
    assert!(!is_room_exists(&app, rid));
    assert_eq!(acts.len(), 2);
    let new_rid = match &acts[0] {
        Action::Send { to, message: Response::GameOver(d) } => {
            assert_eq!(*to, o);
            d.new_room_id
        }
        other => panic!("unexpected action: {:?}", other),
    };
    assert!(matches!(
        &acts[1],
        Action::Send { to, message: Response::GameOver(d) }
            if *to == u && d.new_room_id == new_rid
    ));
    assert_ne!(new_rid, rid);
    let gs = app.game_states.iter().find(|gs| gs.room_id == new_rid).unwrap();
    assert_eq!(gs.room_owner, o);
    assert_eq!(gs.seed, 1234);
    assert_eq!(gs.user_data.len(), 1);
    assert_eq!(gs.user_data[0].0, o);
}
