use room_server::choice::Choice;
use room_server::registry::AppState;
use room_server::resolver::ClientId;
use room_server::responses::{Delivery, Outgoing, Recipient};
use room_server::room::{Room, MAX_PLAYERS_PER_ROOM};

const A: ClientId = 0x1111;
const B: ClientId = 0x2222;
const C: ClientId = 0x3333;
const W: ClientId = 0x9999;

fn text(id: ClientId) -> String {
    uuid::Uuid::from_u128(id).to_string()
}

fn room<'a>(st: &'a AppState, name: &str) -> Option<&'a Room> {
    st.rooms.iter().find(|(n, _)| n == name).map(|(_, r)| r)
}

fn move_count(r: &Room) -> usize {
    r.seats.iter().filter(|s| s.1.is_some()).count()
}

fn join(st: &mut AppState, name: &str, id: ClientId) -> Vec<Delivery> {
    st.join(&name.to_string(), id).expect("join accepted")
}

fn say(st: &mut AppState, name: &str, id: ClientId, msg: &str) -> Vec<Delivery> {
    st.handle_message(&name.to_string(), id, msg)
}

fn census(d: &Delivery) -> Vec<(String, usize)> {
    match &d.message {
        Outgoing::RoomList(l) => l.rooms.iter().map(|i| (i.room_id.clone(), i.client_count)).collect(),
        other => panic!("not a census: {:?}", other),
    }
}

#[test]
fn join_notices_carry_each_recipients_id() {
    let mut st = AppState::new();
    let ds = join(&mut st, "r1", A);
    assert_eq!(ds.len(), 1);
    assert_eq!(ds[0].to, Recipient::Client(A));
    match &ds[0].message {
        Outgoing::Join(j) => {
            assert!(j.success);
            assert_eq!(j.room_id.as_deref(), Some("r1"));
            assert_eq!(j.my_id, Some(text(A)));
            assert_eq!(j.message, Some(format!("Client {} joined room r1", text(A))));
        }
        other => panic!("unexpected {:?}", other),
    }
    let ds = join(&mut st, "r1", B);
    assert_eq!(ds.len(), 2);
    assert_eq!(ds[0].to, Recipient::Client(A));
    assert_eq!(ds[1].to, Recipient::Client(B));
    match &ds[0].message {
        Outgoing::Join(j) => {
            assert_eq!(j.my_id, Some(text(A)));
            assert_eq!(j.message, Some(format!("Client {} joined room r1", text(B))));
        }
        other => panic!("unexpected {:?}", other),
    }
    assert!(st.has_member(&"r1".to_string(), B));
    assert!(!st.has_member(&"r2".to_string(), B));
}

#[test]
fn two_player_game_to_a_winner() {
    let mut st = AppState::new();
    join(&mut st, "r1", A);
    let ds = say(&mut st, "r1", A, r#"{"action":"start"}"#);
    assert_eq!(ds.len(), 1);
    assert_eq!(ds[0].to, Recipient::Client(A));
    match &ds[0].message {
        Outgoing::Error(e) => {
            assert_eq!(e.event, "error");
            assert_eq!(e.message, "Need at least 2 players to start");
            assert_eq!(e.my_id, Some(text(A)));
        }
        other => panic!("unexpected {:?}", other),
    }
    join(&mut st, "r1", B);
    let ds = say(&mut st, "r1", A, r#"{"action":"start"}"#);
    assert_eq!(ds.len(), 2);
    for (d, who) in ds.iter().zip([A, B]) {
        assert_eq!(d.to, Recipient::Client(who));
        match &d.message {
            Outgoing::GameStarted(g) => {
                assert_eq!(g.event, "game_started");
                assert_eq!(g.room_id, "r1");
                assert_eq!(g.players, vec![text(A), text(B)]);
            }
            other => panic!("unexpected {:?}", other),
        }
    }
    assert!(say(&mut st, "r1", A, r#"{"action":"move","choice":"rock"}"#).is_empty());
    let ds = say(&mut st, "r1", B, r#"{"action":"move","choice":"ROCK"}"#);
    assert_eq!(ds.len(), 2);
    for d in &ds {
        match &d.message {
            Outgoing::Rematch(m) => {
                assert_eq!(m.event, "rematch");
                assert_eq!(m.reason, "tie_all");
                assert_eq!(m.next_players, vec![text(A), text(B)]);
                assert_eq!(m.moves, vec![(text(A), "rock".to_string()), (text(B), "rock".to_string())]);
            }
            other => panic!("unexpected {:?}", other),
        }
    }
    let r = room(&st, "r1").unwrap();
    assert!(r.game_active);
    assert_eq!(r.seats, vec![(A, None), (B, None)]);
    assert!(say(&mut st, "r1", A, r#"{"action":"move","choice":"paper"}"#).is_empty());
    let ds = say(&mut st, "r1", B, r#"{"action":"move","choice":"rock"}"#);
    assert_eq!(ds.len(), 2);
    for (d, who) in ds.iter().zip([A, B]) {
        assert_eq!(d.to, Recipient::Client(who));
        match &d.message {
            Outgoing::RoundResult(m) => {
                assert_eq!(m.event, "round_result");
                assert!(!m.tie);
                assert_eq!(m.winners, vec![text(A)]);
                assert_eq!(m.moves, vec![(text(A), "paper".to_string()), (text(B), "rock".to_string())]);
            }
            other => panic!("unexpected {:?}", other),
        }
    }
    let r = room(&st, "r1").unwrap();
    assert!(!r.game_active);
    assert!(r.seats.is_empty());
}

#[test]
fn disconnect_mid_round_forces_idle() {
    let mut st = AppState::new();
    st.watch(W);
    join(&mut st, "r1", A);
    join(&mut st, "r1", B);
    join(&mut st, "r1", C);
    say(&mut st, "r1", A, r#"{"action":"start"}"#);
    assert!(say(&mut st, "r1", A, r#"{"action":"move","choice":"rock"}"#).is_empty());
    assert!(say(&mut st, "r1", B, r#"{"action":"move","choice":"paper"}"#).is_empty());
    let ds = st.leave(&"r1".to_string(), C);
    assert_eq!(ds.len(), 3);
    for (d, who) in ds.iter().take(2).zip([A, B]) {
        assert_eq!(d.to, Recipient::Client(who));
        match &d.message {
            Outgoing::Join(j) => {
                assert_eq!(j.message, Some(format!("Client {} left room r1", text(C))));
                assert_eq!(j.my_id, Some(text(who)));
            }
            other => panic!("unexpected {:?}", other),
        }
    }
    assert_eq!(ds[2].to, Recipient::Watcher(W));
    assert_eq!(census(&ds[2]), vec![("r1".to_string(), 2)]);
    let r = room(&st, "r1").unwrap();
    assert!(!r.game_active);
    assert!(r.seats.is_empty());
    assert_eq!(r.clients, vec![A, B]);
}

#[test]
fn watcher_sees_snapshot_then_updates() {
    let mut st = AppState::new();
    join(&mut st, "r1", A);
    join(&mut st, "r1", B);
    join(&mut st, "r2", C);
    let snap = st.watch(W);
    let rooms: Vec<(String, usize)> = snap.rooms.iter().map(|i| (i.room_id.clone(), i.client_count)).collect();
    assert_eq!(rooms, vec![("r1".to_string(), 2), ("r2".to_string(), 1)]);
    let ds = join(&mut st, "r2", 0x4444);
    assert_eq!(ds.len(), 3);
    assert_eq!(ds[2].to, Recipient::Watcher(W));
    assert_eq!(census(&ds[2]), vec![("r1".to_string(), 2), ("r2".to_string(), 2)]);
    st.unwatch(W);
    let ds = join(&mut st, "r2", 0x5555);
    assert!(ds.iter().all(|d| d.to != Recipient::Watcher(W)));
}

#[test]
fn full_room_turns_client_away() {
    let mut st = AppState::new();
    for k in 0..MAX_PLAYERS_PER_ROOM {
        join(&mut st, "big", 100 + k as ClientId);
    }
    let r = st.join(&"big".to_string(), 999);
    match r {
        Err(j) => {
            assert!(!j.success);
            assert_eq!(j.room_id.as_deref(), Some("big"));
            assert_eq!(j.message.as_deref(), Some("Room is full (max 10 players)"));
            assert_eq!(j.my_id, Some(text(999)));
        }
        Ok(_) => panic!("an eleventh client was admitted"),
    }
    assert_eq!(room(&st, "big").unwrap().clients.len(), MAX_PLAYERS_PER_ROOM);
}

#[test]
fn last_leave_deletes_room() {
    let mut st = AppState::new();
    join(&mut st, "r1", A);
    join(&mut st, "r2", B);
    let ds = st.leave(&"r1".to_string(), A);
    assert!(ds.is_empty());
    assert!(room(&st, "r1").is_none());
    assert_eq!(st.census().rooms.len(), 1);
    assert_eq!(st.census().rooms[0].room_id, "r2");
}

#[test]
fn resubmitted_move_overwrites() {
    let mut st = AppState::new();
    join(&mut st, "r1", A);
    join(&mut st, "r1", B);
    say(&mut st, "r1", A, r#"{"action":"start"}"#);
    assert!(say(&mut st, "r1", A, r#"{"action":"move","choice":"rock"}"#).is_empty());
    assert_eq!(move_count(room(&st, "r1").unwrap()), 1);
    assert!(say(&mut st, "r1", A, r#"{"action":"move","choice":"paper"}"#).is_empty());
    assert_eq!(move_count(room(&st, "r1").unwrap()), 1);
    let ds = say(&mut st, "r1", B, r#"{"action":"move","choice":"rock"}"#);
    match &ds[0].message {
        Outgoing::RoundResult(m) => assert_eq!(m.winners, vec![text(A)]),
        other => panic!("unexpected {:?}", other),
    }
}

#[test]
fn three_way_round_narrows_to_winners() {
    let mut st = AppState::new();
    join(&mut st, "r1", A);
    join(&mut st, "r1", B);
    join(&mut st, "r1", C);
    say(&mut st, "r1", A, r#"{"action":"start"}"#);
    say(&mut st, "r1", A, r#"{"action":"move","choice":"rock"}"#);
    say(&mut st, "r1", B, r#"{"action":"move","choice":"rock"}"#);
    let ds = say(&mut st, "r1", C, r#"{"action":"move","choice":"scissors"}"#);
    assert_eq!(ds.len(), 3);
    match &ds[2].message {
        Outgoing::Rematch(m) => {
            assert_eq!(m.reason, "multiple_winners");
            assert_eq!(m.next_players, vec![text(A), text(B)]);
            assert_eq!(m.moves.len(), 3);
        }
        other => panic!("unexpected {:?}", other),
    }
    assert_eq!(room(&st, "r1").unwrap().seats, vec![(A, None), (B, None)]);
    let ds = say(&mut st, "r1", C, r#"{"action":"move","choice":"rock"}"#);
    assert_eq!(ds.len(), 1);
    match &ds[0].message {
        Outgoing::Error(e) => assert_eq!(e.message, "You are not active in this round"),
        other => panic!("unexpected {:?}", other),
    }
}

#[test]
fn game_state_refusals() {
    let mut st = AppState::new();
    join(&mut st, "r1", A);
    join(&mut st, "r1", B);
    let ds = say(&mut st, "r1", A, r#"{"action":"move","choice":"rock"}"#);
    match &ds[0].message {
        Outgoing::Error(e) => assert_eq!(e.message, "Game not active"),
        other => panic!("unexpected {:?}", other),
    }
    say(&mut st, "r1", A, r#"{"action":"start"}"#);
    let ds = say(&mut st, "r1", B, r#"{"action":"start_game"}"#);
    assert_eq!(ds.len(), 1);
    assert_eq!(ds[0].to, Recipient::Client(B));
    match &ds[0].message {
        Outgoing::Error(e) => {
            assert_eq!(e.message, "Game already active");
            assert_eq!(e.room_id.as_deref(), Some("r1"));
        }
        other => panic!("unexpected {:?}", other),
    }
    let ds = say(&mut st, "r1", B, r#"{"action":"move","choice":"spock"}"#);
    match &ds[0].message {
        Outgoing::Error(e) => assert_eq!(e.message, "Invalid choice, use rock|paper|scissors"),
        other => panic!("unexpected {:?}", other),
    }
    let ds = say(&mut st, "r1", B, r#"{"action":"dance"}"#);
    assert_eq!(ds.len(), 1);
    match &ds[0].message {
        Outgoing::Error(e) => assert_eq!(e.message, "Unknown action"),
        other => panic!("unexpected {:?}", other),
    }
    assert_eq!(move_count(room(&st, "r1").unwrap()), 0);
}

#[test]
fn plain_text_goes_to_whole_room() {
    let mut st = AppState::new();
    join(&mut st, "r1", A);
    join(&mut st, "r1", B);
    join(&mut st, "r2", C);
    let ds = say(&mut st, "r1", A, "hello there");
    assert_eq!(ds.len(), 2);
    assert_eq!(ds[0].to, Recipient::Client(A));
    assert_eq!(ds[1].to, Recipient::Client(B));
    for d in &ds {
        match &d.message {
            Outgoing::Text(t) => assert_eq!(t, "hello there"),
            other => panic!("unexpected {:?}", other),
        }
    }
}

#[test]
fn room_transitions_directly() {
    let mut r = Room::new();
    r.add_client(A);
    assert_eq!(r.start(), Err(room_server::room::GameError::NotEnoughPlayers));
    r.add_client(B);
    assert_eq!(r.start(), Ok(()));
    assert_eq!(r.start(), Err(room_server::room::GameError::AlreadyActive));
    assert!(matches!(r.submit_move(C, Choice::Rock), Err(room_server::room::GameError::NotAPlayer)));
    assert!(matches!(r.submit_move(A, Choice::Scissors), Ok(None)));
    assert!(r.remove_client(B));
    assert!(!r.remove_client(B));
    assert!(!r.game_active);
    assert_eq!(r.clients, vec![A]);
}

fn invariants_hold(st: &AppState) {
    for (_, r) in &st.rooms {
        assert!(!r.clients.is_empty());
        for (p, _) in &r.seats {
            assert!(r.clients.contains(p));
        }
        if !r.game_active {
            assert!(r.seats.is_empty());
        }
    }
}

#[test]
fn room_invariants_hold_through_a_game() {
    let mut st = AppState::new();
    let steps: Vec<(ClientId, &str)> = vec![
        (A, r#"{"action":"start"}"#),
        (A, r#"{"action":"move","choice":"rock"}"#),
        (B, r#"{"action":"move","choice":"rock"}"#),
        (C, r#"{"action":"move","choice":"scissors"}"#),
        (A, r#"{"action":"move","choice":"paper"}"#),
        (B, r#"{"action":"move","choice":"paper"}"#),
        (A, r#"{"action":"move","choice":"scissors"}"#),
        (B, r#"{"action":"move","choice":"paper"}"#),
    ];
    join(&mut st, "r1", A);
    join(&mut st, "r1", B);
    join(&mut st, "r1", C);
    invariants_hold(&st);
    for (who, msg) in steps {
        say(&mut st, "r1", who, msg);
        invariants_hold(&st);
    }
    assert!(!room(&st, "r1").unwrap().game_active);
    say(&mut st, "r1", A, r#"{"action":"start"}"#);
    st.leave(&"r1".to_string(), B);
    invariants_hold(&st);
    st.leave(&"r1".to_string(), A);
    st.leave(&"r1".to_string(), C);
    invariants_hold(&st);
    assert!(st.rooms.is_empty());
}
