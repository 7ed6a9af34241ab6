use vstd::prelude::*;
use crate::choice::{Choice, beats};

verus! {

/// A connection's identifier: the 128-bit value of its UUID.
pub type ClientId = u128;

/// Whether some player in `plays` chose `c`.
pub open spec fn played(plays: Seq<(ClientId, Choice)>, c: Choice) -> bool {
    exists|i: int| 0 <= i < plays.len() && (#[trigger] plays[i]).1 == c
}

/// How many distinct tokens occur in `plays`.
pub open spec fn distinct_count(plays: Seq<(ClientId, Choice)>) -> nat {
    (if played(plays, Choice::Rock) { 1nat } else { 0nat })
        + (if played(plays, Choice::Paper) { 1nat } else { 0nat })
        + (if played(plays, Choice::Scissors) { 1nat } else { 0nat })
}

/// With exactly two distinct tokens present, the one of them that beats the other.
pub open spec fn winning_choice(plays: Seq<(ClientId, Choice)>) -> Choice {
    if !played(plays, Choice::Paper) {
        Choice::Rock
    } else if !played(plays, Choice::Scissors) {
        Choice::Paper
    } else {
        Choice::Scissors
    }
}

/// The ids of the players in `plays` that chose `c`, in order.
pub open spec fn ids_choosing(plays: Seq<(ClientId, Choice)>, c: Choice) -> Seq<ClientId>
    decreases plays.len(),
{
    if plays.len() == 0 {
        Seq::empty()
    } else {
        let rest = ids_choosing(plays.drop_last(), c);
        if plays.last().1 == c {
            rest.push(plays.last().0)
        } else {
            rest
        }
    }
}

/// The ids of a move list.
pub open spec fn play_ids(plays: Seq<(ClientId, Choice)>) -> Seq<ClientId> {
    plays.map_values(|p: (ClientId, Choice)| p.0)
}

/// Those who chose a token are players of the list, each named once.
pub proof fn lemma_ids_choosing(plays: Seq<(ClientId, Choice)>, c: Choice)
    ensures
        forall|k: int|
            0 <= k < ids_choosing(plays, c).len() ==> play_ids(plays).contains(
                #[trigger] ids_choosing(plays, c)[k],
            ),
        play_ids(plays).no_duplicates() ==> ids_choosing(plays, c).no_duplicates(),
    decreases plays.len(),
{
    if plays.len() > 0 {
        let init = plays.drop_last();
        lemma_ids_choosing(init, c);
        let rest = ids_choosing(init, c);
        let ids = ids_choosing(plays, c);
        assert(play_ids(init) =~= play_ids(plays).drop_last());
        assert forall|k: int| 0 <= k < ids.len() implies play_ids(plays).contains(
            #[trigger] ids[k],
        ) by {
            if k < rest.len() {
                assert(play_ids(init).contains(rest[k]));
                let j = choose|j: int| 0 <= j < play_ids(init).len() && play_ids(init)[j] == rest[k];
                assert(play_ids(plays)[j] == rest[k]);
            } else {
                assert(play_ids(plays)[plays.len() - 1] == ids[k]);
            }
        }
        if play_ids(plays).no_duplicates() {
            assert(play_ids(init).no_duplicates());
            if plays.last().1 == c {
                assert forall|k: int| 0 <= k < rest.len() implies rest[k] != plays.last().0 by {
                    assert(play_ids(init).contains(rest[k]));
                    let j = choose|j: int| 0 <= j < play_ids(init).len() && play_ids(init)[j] == rest[k];
                    assert(play_ids(plays)[j] == rest[k]);
                    assert(play_ids(plays)[plays.len() - 1] == plays.last().0);
                }
            }
        }
    }
}

/// Someone chose `c` exactly when the list of those who chose it is not empty.
pub proof fn lemma_ids_choosing_nonempty(plays: Seq<(ClientId, Choice)>, c: Choice)
    ensures
        played(plays, c) <==> ids_choosing(plays, c).len() > 0,
    decreases plays.len(),
{
    if plays.len() > 0 {
        let init = plays.drop_last();
        lemma_ids_choosing_nonempty(init, c);
        if played(plays, c) && plays.last().1 != c {
            let i = choose|i: int| 0 <= i < plays.len() && (#[trigger] plays[i]).1 == c;
            assert(init[i].1 == c);
        }
        if played(init, c) {
            let i = choose|i: int| 0 <= i < init.len() && (#[trigger] init[i]).1 == c;
            assert(plays[i].1 == c);
        }
        if plays.last().1 == c {
            assert(plays[plays.len() - 1].1 == c);
        }
    }
}

/// The players that chose the beating token.
pub open spec fn winners_of(plays: Seq<(ClientId, Choice)>) -> Seq<ClientId> {
    ids_choosing(plays, winning_choice(plays))
}

/// The kind of a completed sub-round.
#[derive(Debug)]
pub enum Outcome {
    Tie,
    SingleWinner(ClientId),
    MultiWinners(Vec<ClientId>),
}

/// What the resolver decides, with every player's move for display.
#[derive(Debug)]
pub struct Resolution {
    pub outcome: Outcome,
    pub moves: Vec<(ClientId, Choice)>,
}

/// The outcome that the rules give for `plays`.
pub open spec fn outcome_matches(o: Outcome, plays: Seq<(ClientId, Choice)>) -> bool {
    match o {
        Outcome::Tie => distinct_count(plays) != 2,
        Outcome::SingleWinner(w) => distinct_count(plays) == 2 && winners_of(plays) == seq![w],
        Outcome::MultiWinners(ws) => distinct_count(plays) == 2 && ws@ == winners_of(plays)
            && ws@.len() >= 2,
    }
}

/// A token that is played beats the others that are, when exactly two are played.
pub proof fn lemma_winning_choice_beats(plays: Seq<(ClientId, Choice)>, c: Choice)
    requires
        distinct_count(plays) == 2,
        played(plays, c),
        c != winning_choice(plays),
    ensures
        played(plays, winning_choice(plays)),
        beats(winning_choice(plays), c),
{
}

/// A copy of the move list.
fn copy_plays(plays: &Vec<(ClientId, Choice)>) -> (r: Vec<(ClientId, Choice)>)
    ensures
        r@ == plays@,
{
    let mut r: Vec<(ClientId, Choice)> = Vec::new();
    let mut i: usize = 0;
    while i < plays.len()
        invariant
            i <= plays@.len(),
            r@ == plays@.take(i as int),
        decreases plays@.len() - i,
    {
        r.push(plays[i]);
        i = i + 1;
        assert(r@ =~= plays@.take(i as int));
    }
    assert(plays@.take(plays@.len() as int) =~= plays@);
    r
}

/// Resolves a sub-round: `plays` holds each active player's move.
pub fn compute_round_outcome(plays: &Vec<(ClientId, Choice)>) -> (r: Resolution)
    ensures
        outcome_matches(r.outcome, plays@),
        r.moves@ == plays@,
{
    let mut has_rock = false;
    let mut has_paper = false;
    let mut has_scissors = false;
    let mut i: usize = 0;
    while i < plays.len()
        invariant
            i <= plays@.len(),
            has_rock == exists|j: int| 0 <= j < i && (#[trigger] plays@[j]).1 == Choice::Rock,
            has_paper == exists|j: int| 0 <= j < i && (#[trigger] plays@[j]).1 == Choice::Paper,
            has_scissors == exists|j: int| 0 <= j < i && (#[trigger] plays@[j]).1 == Choice::Scissors,
        decreases plays@.len() - i,
    {
        match plays[i].1 {
            Choice::Rock => { has_rock = true; },
            Choice::Paper => { has_paper = true; },
            Choice::Scissors => { has_scissors = true; },
        }
        i = i + 1;
    }
    let ghost p = plays@;
    assert(has_rock == played(p, Choice::Rock));
    assert(has_paper == played(p, Choice::Paper));
    assert(has_scissors == played(p, Choice::Scissors));
    let moves = copy_plays(plays);
    let count: u8 = (if has_rock { 1u8 } else { 0u8 }) + (if has_paper { 1u8 } else { 0u8 })
        + (if has_scissors { 1u8 } else { 0u8 });
    if count != 2 {
        return Resolution { outcome: Outcome::Tie, moves };
    }
    let win = if !has_paper {
        Choice::Rock
    } else if !has_scissors {
        Choice::Paper
    } else {
        Choice::Scissors
    };
    let mut winners: Vec<ClientId> = Vec::new();
    let mut k: usize = 0;
    while k < plays.len()
        invariant
            k <= p.len(),
            p == plays@,
            winners@ == ids_choosing(p.take(k as int), win),
        decreases p.len() - k,
    {
        assert(p.take(k + 1).drop_last() =~= p.take(k as int));
        if plays[k].1 == win {
            winners.push(plays[k].0);
        }
        k = k + 1;
    }
    assert(p.take(p.len() as int) =~= p);
    assert(win == winning_choice(p));
    assert(winners@ == winners_of(p));
    proof {
        lemma_ids_choosing_nonempty(p, win);
    }
    if winners.len() == 1 {
        assert(winners@ =~= seq![winners@[0]]);
        Resolution { outcome: Outcome::SingleWinner(winners[0]), moves }
    } else {
        Resolution { outcome: Outcome::MultiWinners(winners), moves }
    }
}

} // verus!
