use room_server::choice::Choice;
use room_server::resolver::{compute_round_outcome, ClientId, Outcome};

const A: ClientId = 0xA;
const B: ClientId = 0xB;
const C: ClientId = 0xC;
const D: ClientId = 0xD;

#[test]
fn three_rocks_tie() {
    let plays = vec![(A, Choice::Rock), (B, Choice::Rock), (C, Choice::Rock)];
    let r = compute_round_outcome(&plays);
    assert!(matches!(r.outcome, Outcome::Tie));
    assert_eq!(r.moves, plays);
}

#[test]
fn rock_beats_scissors_single_winner() {
    let plays = vec![(A, Choice::Rock), (B, Choice::Scissors)];
    let r = compute_round_outcome(&plays);
    assert!(matches!(r.outcome, Outcome::SingleWinner(w) if w == A));
    assert_eq!(r.moves, plays);
}

#[test]
fn two_rocks_beat_scissors() {
    let plays = vec![(A, Choice::Rock), (B, Choice::Rock), (C, Choice::Scissors)];
    let r = compute_round_outcome(&plays);
    match r.outcome {
        Outcome::MultiWinners(ws) => assert_eq!(ws, vec![A, B]),
        other => panic!("unexpected outcome {:?}", other),
    }
}

#[test]
fn two_papers_beat_two_rocks() {
    let plays = vec![(A, Choice::Paper), (B, Choice::Paper), (C, Choice::Rock), (D, Choice::Rock)];
    let r = compute_round_outcome(&plays);
    match r.outcome {
        Outcome::MultiWinners(ws) => assert_eq!(ws, vec![A, B]),
        other => panic!("unexpected outcome {:?}", other),
    }
    assert_eq!(r.moves.len(), 4);
}

#[test]
fn all_three_tokens_tie() {
    let plays = vec![(A, Choice::Rock), (B, Choice::Paper), (C, Choice::Scissors)];
    assert!(matches!(compute_round_outcome(&plays).outcome, Outcome::Tie));
}

#[test]
fn scissors_beat_paper() {
    let plays = vec![(A, Choice::Paper), (B, Choice::Scissors), (C, Choice::Paper)];
    assert!(matches!(compute_round_outcome(&plays).outcome, Outcome::SingleWinner(w) if w == B));
}

#[test]
fn paper_beats_rock() {
    let plays = vec![(A, Choice::Rock), (B, Choice::Paper)];
    assert!(matches!(compute_round_outcome(&plays).outcome, Outcome::SingleWinner(w) if w == B));
}

#[test]
fn no_moves_tie() {
    let plays: Vec<(ClientId, Choice)> = vec![];
    let r = compute_round_outcome(&plays);
    assert!(matches!(r.outcome, Outcome::Tie));
    assert!(r.moves.is_empty());
}
