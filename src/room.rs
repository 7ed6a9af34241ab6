use vstd::prelude::*;
use crate::choice::Choice;
use crate::resolver::{
    ClientId, Outcome, Resolution, compute_round_outcome, outcome_matches, lemma_ids_choosing,
    play_ids, winners_of,
};

verus! {

/// The most clients that one room admits.
pub const MAX_PLAYERS_PER_ROOM: usize = 10;

/// One game's state: its members, whether a game runs, and the active
/// players of the current sub-round, each with the move submitted so far.
#[derive(Debug)]
pub struct Room {
    pub clients: Vec<ClientId>,
    pub game_active: bool,
    pub seats: Vec<(ClientId, Option<Choice>)>,
}

/// Why a game command was refused.
#[derive(Clone, Copy, Debug, PartialEq, Eq, Structural)]
pub enum GameError {
    AlreadyActive,
    NotEnoughPlayers,
    NotActive,
    NotAPlayer,
    InvalidChoice,
}

impl GameError {
    /// The text sent to the requester.
    pub fn message(&self) -> (r: String)
        ensures
            r@ == game_error_text(*self),
    {
        match self {
            GameError::AlreadyActive => String::from_str("Game already active"),
            GameError::NotEnoughPlayers => String::from_str("Need at least 2 players to start"),
            GameError::NotActive => String::from_str("Game not active"),
            GameError::NotAPlayer => String::from_str("You are not active in this round"),
            GameError::InvalidChoice => String::from_str("Invalid choice, use rock|paper|scissors"),
        }
    }
}

pub open spec fn game_error_text(e: GameError) -> Seq<char> {
    match e {
        GameError::AlreadyActive => "Game already active"@,
        GameError::NotEnoughPlayers => "Need at least 2 players to start"@,
        GameError::NotActive => "Game not active"@,
        GameError::NotAPlayer => "You are not active in this round"@,
        GameError::InvalidChoice => "Invalid choice, use rock|paper|scissors"@,
    }
}

/// Seats whose players are `ids`, none of them having moved.
pub open spec fn fresh_seats(ids: Seq<ClientId>) -> Seq<(ClientId, Option<Choice>)> {
    ids.map_values(|p: ClientId| (p, None::<Choice>))
}

/// `seats` with `player`'s move set to `c`.
pub open spec fn seats_after_move(
    seats: Seq<(ClientId, Option<Choice>)>,
    player: ClientId,
    c: Choice,
) -> Seq<(ClientId, Option<Choice>)> {
    seats.map_values(
        |s: (ClientId, Option<Choice>)|
            if s.0 == player {
                (player, Some(c))
            } else {
                s
            },
    )
}

/// Whether every seat holds a move.
pub open spec fn all_moved(seats: Seq<(ClientId, Option<Choice>)>) -> bool {
    forall|i: int| 0 <= i < seats.len() ==> (#[trigger] seats[i]).1 is Some
}

/// The moves of a full set of seats.
pub open spec fn plays_of(seats: Seq<(ClientId, Option<Choice>)>) -> Seq<(ClientId, Choice)> {
    seats.map_values(|s: (ClientId, Option<Choice>)| (s.0, s.1.unwrap()))
}

/// The ids of the seated players.
pub open spec fn seat_ids(seats: Seq<(ClientId, Option<Choice>)>) -> Seq<ClientId> {
    seats.map_values(|s: (ClientId, Option<Choice>)| s.0)
}

/// Whether a seat of `p` holds a move.
pub open spec fn has_move(seats: Seq<(ClientId, Option<Choice>)>, p: ClientId) -> bool {
    exists|i: int| 0 <= i < seats.len() && (#[trigger] seats[i]).0 == p && seats[i].1 is Some
}

/// The moves held by `seats`, by player.
pub open spec fn moves_of(seats: Seq<(ClientId, Option<Choice>)>) -> Map<ClientId, Choice> {
    Map::new(
        |p: ClientId| has_move(seats, p),
        |p: ClientId|
            seats[choose|i: int|
                0 <= i < seats.len() && (#[trigger] seats[i]).0 == p && seats[i].1 is Some].1.unwrap(),
    )
}

/// The abstract state of a room.
pub struct RoomView {
    pub clients: Seq<ClientId>,
    pub game_active: bool,
    pub seats: Seq<(ClientId, Option<Choice>)>,
}

impl View for Room {
    type V = RoomView;

    open spec fn view(&self) -> RoomView {
        RoomView { clients: self.clients@, game_active: self.game_active, seats: self.seats@ }
    }
}

/// How a resolved sub-round leaves the seats of `seats`.
pub open spec fn applied(seats: Seq<(ClientId, Option<Choice>)>, res: Resolution, after: RoomView) -> bool {
    &&& outcome_matches(res.outcome, plays_of(seats))
    &&& res.moves@ == plays_of(seats)
    &&& match res.outcome {
        Outcome::Tie => after.game_active && after.seats == fresh_seats(seat_ids(seats)),
        Outcome::MultiWinners(ws) => after.game_active && after.seats == fresh_seats(ws@),
        Outcome::SingleWinner(_) => !after.game_active && after.seats.len() == 0,
    }
}

/// What a move of `player` with `c` does to a room in state `before`.
pub open spec fn move_effect(
    before: RoomView,
    player: ClientId,
    c: Choice,
    after: RoomView,
    r: Result<Option<Resolution>, GameError>,
) -> bool {
    &&& after.clients == before.clients
    &&& !before.game_active ==> r == Err::<Option<Resolution>, GameError>(GameError::NotActive)
        && after == before
    &&& before.game_active && !seat_ids(before.seats).contains(player) ==> r == Err::<
        Option<Resolution>,
        GameError,
    >(GameError::NotAPlayer) && after == before
    &&& before.game_active && seat_ids(before.seats).contains(player) ==> {
        let s = seats_after_move(before.seats, player, c);
        &&& !all_moved(s) ==> r == Ok::<Option<Resolution>, GameError>(None) && after.game_active
            && after.seats == s
        &&& all_moved(s) ==> (r matches Ok(Some(res)) && applied(s, res, after))
    }
}

impl Room {
    /// The room's members as a set.
    pub open spec fn client_set(&self) -> Set<ClientId> {
        self.clients@.to_set()
    }

    /// The players still in the current sub-round.
    pub open spec fn active_players(&self) -> Set<ClientId> {
        seat_ids(self.seats@).to_set()
    }

    /// The moves recorded for this sub-round.
    pub open spec fn moves(&self) -> Map<ClientId, Choice> {
        moves_of(self.seats@)
    }

    /// Members are distinct and within capacity; active players are distinct
    /// members; an idle room has no active players, a running game at least
    /// two.
    pub open spec fn wf(&self) -> bool {
        &&& self.clients@.no_duplicates()
        &&& self.clients@.len() <= MAX_PLAYERS_PER_ROOM
        &&& seat_ids(self.seats@).no_duplicates()
        &&& forall|i: int|
            0 <= i < self.seats@.len() ==> self.clients@.contains(#[trigger] self.seats@[i].0)
        &&& !self.game_active ==> self.seats@.len() == 0
        &&& self.game_active ==> self.seats@.len() >= 2
    }

    /// An idle room with no members.
    pub fn new() -> (r: Room)
        ensures
            r.wf(),
            r.clients@.len() == 0,
            !r.game_active,
    {
        Room { clients: Vec::new(), game_active: false, seats: Vec::new() }
    }

    /// Whether `id` is a member.
    pub fn has_client(&self, id: ClientId) -> (r: bool)
        ensures
            r == self.clients@.contains(id),
    {
        let mut i: usize = 0;
        while i < self.clients.len()
            invariant
                i <= self.clients@.len(),
                forall|j: int| 0 <= j < i ==> self.clients@[j] != id,
            decreases self.clients@.len() - i,
        {
            if self.clients[i] == id {
                return true;
            }
            i = i + 1;
        }
        false
    }

    /// Admits a new member.
    pub fn add_client(&mut self, id: ClientId)
        requires
            old(self).wf(),
            !old(self).clients@.contains(id),
            old(self).clients@.len() < MAX_PLAYERS_PER_ROOM,
        ensures
            final(self).wf(),
            final(self).clients@ == old(self).clients@.push(id),
            final(self).game_active == old(self).game_active,
            final(self).seats@ == old(self).seats@,
    {
        self.clients.push(id);
        assert forall|i: int| 0 <= i < self.seats@.len() implies self.clients@.contains(
            #[trigger] self.seats@[i].0,
        ) by {
            let x = self.seats@[i].0;
            assert(old(self).clients@.contains(x));
            let j = choose|j: int| 0 <= j < old(self).clients@.len() && old(self).clients@[j] == x;
            assert(self.clients@[j] == x);
        }
    }

    /// Builds seats for `ids`, none of them having moved.
    fn seat(ids: &Vec<ClientId>) -> (r: Vec<(ClientId, Option<Choice>)>)
        ensures
            r@ == fresh_seats(ids@),
    {
        let mut r: Vec<(ClientId, Option<Choice>)> = Vec::new();
        let mut i: usize = 0;
        while i < ids.len()
            invariant
                i <= ids@.len(),
                r@ == fresh_seats(ids@.take(i as int)),
            decreases ids@.len() - i,
        {
            r.push((ids[i], None));
            i = i + 1;
            assert(r@ =~= fresh_seats(ids@.take(i as int)));
        }
        assert(ids@.take(ids@.len() as int) =~= ids@);
        r
    }

    /// Starts a game among all current members.
    pub fn start(&mut self) -> (r: Result<(), GameError>)
        requires
            old(self).wf(),
        ensures
            final(self).wf(),
            old(self).game_active ==> r == Err::<(), GameError>(GameError::AlreadyActive)
                && final(self)@ == old(self)@,
            !old(self).game_active && old(self).clients@.len() < 2 ==> r == Err::<(), GameError>(
                GameError::NotEnoughPlayers,
            ) && final(self)@ == old(self)@,
            !old(self).game_active && old(self).clients@.len() >= 2 ==> r is Ok
                && final(self).game_active && final(self).clients@ == old(self).clients@
                && final(self).seats@ == fresh_seats(old(self).clients@),
    {
        if self.game_active {
            return Err(GameError::AlreadyActive);
        }
        if self.clients.len() < 2 {
            return Err(GameError::NotEnoughPlayers);
        }
        self.seats = Room::seat(&self.clients);
        self.game_active = true;
        assert(seat_ids(self.seats@) =~= self.clients@);
        assert forall|i: int| 0 <= i < self.seats@.len() implies self.clients@.contains(
            #[trigger] self.seats@[i].0,
        ) by {
            assert(self.clients@[i] == self.seats@[i].0);
        }
        Ok(())
    }

    /// The position of `p` among the seats, if seated.
    fn seat_index(&self, p: ClientId) -> (r: Option<usize>)
        ensures
            r matches Some(k) ==> k < self.seats@.len() && self.seats@[k as int].0 == p,
            r is None ==> !seat_ids(self.seats@).contains(p),
    {
        let mut i: usize = 0;
        while i < self.seats.len()
            invariant
                i <= self.seats@.len(),
                forall|j: int| 0 <= j < i ==> self.seats@[j].0 != p,
            decreases self.seats@.len() - i,
        {
            if self.seats[i].0 == p {
                return Some(i);
            }
            i = i + 1;
        }
        assert forall|j: int| 0 <= j < seat_ids(self.seats@).len() implies seat_ids(self.seats@)[j]
            != p by {
            assert(self.seats@[j].0 != p);
        }
        None
    }

    /// Whether every seat holds a move; the moves if so.
    fn full_plays(&self) -> (r: Option<Vec<(ClientId, Choice)>>)
        ensures
            r is None <==> !all_moved(self.seats@),
            r matches Some(v) ==> v@ == plays_of(self.seats@),
    {
        let mut v: Vec<(ClientId, Choice)> = Vec::new();
        let mut i: usize = 0;
        while i < self.seats.len()
            invariant
                i <= self.seats@.len(),
                forall|j: int| 0 <= j < i ==> (#[trigger] self.seats@[j]).1 is Some,
                v@ == plays_of(self.seats@.take(i as int)),
            decreases self.seats@.len() - i,
        {
            match self.seats[i].1 {
                Some(c) => {
                    v.push((self.seats[i].0, c));
                },
                None => {
                    return None;
                },
            }
            i = i + 1;
            assert(v@ =~= plays_of(self.seats@.take(i as int)));
        }
        assert(self.seats@.take(self.seats@.len() as int) =~= self.seats@);
        Some(v)
    }

    /// Records a move of an active player, and resolves the sub-round once
    /// every active player has moved.
    pub fn submit_move(&mut self, player: ClientId, c: Choice) -> (r: Result<
        Option<Resolution>,
        GameError,
    >)
        requires
            old(self).wf(),
        ensures
            final(self).wf(),
            final(self).clients@ == old(self).clients@,
            move_effect(old(self)@, player, c, final(self)@, r),
    {
        if !self.game_active {
            return Err(GameError::NotActive);
        }
        let k = match self.seat_index(player) {
            Some(k) => k,
            None => {
                return Err(GameError::NotAPlayer);
            },
        };
        let ghost old_seats = self.seats@;
        assert(seat_ids(old_seats)[k as int] == player);
        self.seats.set(k, (player, Some(c)));
        let ghost s = seats_after_move(old_seats, player, c);
        assert forall|j: int| 0 <= j < s.len() implies s[j] == self.seats@[j] by {
            if j != k {
                assert(seat_ids(old_seats)[j] != seat_ids(old_seats)[k as int]);
            }
        }
        assert(self.seats@ =~= s);
        assert(seat_ids(s) =~= seat_ids(old_seats));
        assert forall|i: int| 0 <= i < self.seats@.len() implies self.clients@.contains(
            #[trigger] self.seats@[i].0,
        ) by {
            assert(old_seats[i].0 == self.seats@[i].0);
        }
        let plays = match self.full_plays() {
            Some(v) => v,
            None => {
                return Ok(None);
            },
        };
        let res = compute_round_outcome(&plays);
        proof {
            assert(play_ids(plays@) =~= seat_ids(s));
        }
        match &res.outcome {
            Outcome::Tie => {
                let mut ids: Vec<ClientId> = Vec::new();
                let mut i: usize = 0;
                while i < plays.len()
                    invariant
                        i <= plays@.len(),
                        ids@ == play_ids(plays@).take(i as int),
                    decreases plays@.len() - i,
                {
                    ids.push(plays[i].0);
                    i = i + 1;
                    assert(ids@ =~= play_ids(plays@).take(i as int));
                }
                assert(play_ids(plays@).take(plays@.len() as int) =~= play_ids(plays@));
                self.seats = Room::seat(&ids);
                assert(seat_ids(self.seats@) =~= seat_ids(s));
                assert forall|i: int| 0 <= i < self.seats@.len() implies self.clients@.contains(
                    #[trigger] self.seats@[i].0,
                ) by {
                    assert(s[i].0 == self.seats@[i].0);
                }
            },
            Outcome::MultiWinners(ws) => {
                self.seats = Room::seat(ws);
                proof {
                    lemma_ids_choosing(plays@, crate::resolver::winning_choice(plays@));
                    assert(ws@ == winners_of(plays@));
                    assert(seat_ids(self.seats@) =~= ws@);
                    assert forall|i: int| 0 <= i < self.seats@.len() implies self.clients@.contains(
                        #[trigger] self.seats@[i].0,
                    ) by {
                        assert(ws@[i] == self.seats@[i].0);
                        assert(play_ids(plays@).contains(ws@[i]));
                        let j = choose|j: int|
                            0 <= j < play_ids(plays@).len() && play_ids(plays@)[j] == ws@[i];
                        assert(s[j].0 == ws@[i]);
                    }
                }
            },
            Outcome::SingleWinner(_) => {
                self.seats = Vec::new();
                self.game_active = false;
            },
        }
        Ok(Some(res))
    }

    /// Removes a member; a running game is abandoned without a result.
    pub fn remove_client(&mut self, id: ClientId) -> (r: bool)
        requires
            old(self).wf(),
        ensures
            final(self).wf(),
            r == old(self).clients@.contains(id),
            !r ==> final(self)@ == old(self)@,
            r ==> exists|i: int|
                0 <= i < old(self).clients@.len() && old(self).clients@[i] == id
                    && final(self).clients@ == old(self).clients@.remove(i),
            r ==> !final(self).game_active && final(self).seats@.len() == 0,
    {
        let mut i: usize = 0;
        while i < self.clients.len()
            invariant
                i <= self.clients@.len(),
                forall|j: int| 0 <= j < i ==> self.clients@[j] != id,
                self.wf(),
                self@ == old(self)@,
            decreases self.clients@.len() - i,
        {
            if self.clients[i] == id {
                let ghost before = self.clients@;
                self.clients.remove(i);
                self.game_active = false;
                self.seats = Vec::new();
                assert(self.clients@ =~= before.remove(i as int));
                assert forall|a: int, b: int|
                    0 <= a < self.clients@.len() && 0 <= b < self.clients@.len() && a != b
                        implies self.clients@[a] != self.clients@[b] by {
                    let a0 = if a < i { a } else { a + 1 };
                    let b0 = if b < i { b } else { b + 1 };
                    assert(self.clients@[a] == before[a0]);
                    assert(self.clients@[b] == before[b0]);
                    assert(before.no_duplicates());
                }
                return true;
            }
            i = i + 1;
        }
        false
    }
}

/// In a well-formed room the recorded moves belong to active players, the
/// active players are members, and an idle room has neither moves nor
/// active players.
pub proof fn lemma_room_invariants(r: &Room)
    requires
        r.wf(),
    ensures
        r.moves().dom().subset_of(r.active_players()),
        r.active_players().subset_of(r.client_set()),
        !r.game_active ==> r.moves().dom() == Set::<ClientId>::empty() && r.active_players()
            == Set::<ClientId>::empty(),
{
    assert forall|p: ClientId| r.moves().dom().contains(p) implies r.active_players().contains(p) by {
        let i = choose|i: int| 0 <= i < r.seats@.len() && (#[trigger] r.seats@[i]).0 == p && r.seats@[i].1 is Some;
        assert(seat_ids(r.seats@)[i] == p);
    }
    assert forall|p: ClientId| r.active_players().contains(p) implies r.client_set().contains(p) by {
        let i = choose|i: int| 0 <= i < seat_ids(r.seats@).len() && seat_ids(r.seats@)[i] == p;
        assert(r.clients@.contains(r.seats@[i].0));
    }
    if !r.game_active {
        assert(r.moves().dom() =~= Set::<ClientId>::empty());
        assert(r.active_players() =~= Set::<ClientId>::empty());
    }
}

/// A second move from the same active player before the sub-round resolves
/// replaces the first: the players with a recorded move stay the same, so
/// their number does too, and the later token is the one kept.
pub proof fn lemma_resubmission_replaces(
    seats: Seq<(ClientId, Option<Choice>)>,
    p: ClientId,
    first: Choice,
    second: Choice,
)
    requires
        seat_ids(seats).no_duplicates(),
        seat_ids(seats).contains(p),
    ensures
        ({
            let once = seats_after_move(seats, p, first);
            let twice = seats_after_move(once, p, second);
            &&& moves_of(twice).dom() == moves_of(once).dom()
            &&& moves_of(twice).dom().len() == moves_of(once).dom().len()
            &&& moves_of(twice)[p] == second
        }),
{
    let once = seats_after_move(seats, p, first);
    let twice = seats_after_move(once, p, second);
    assert forall|q: ClientId| has_move(twice, q) == has_move(once, q) by {
        if has_move(twice, q) {
            let i = choose|i: int| 0 <= i < twice.len() && (#[trigger] twice[i]).0 == q && twice[i].1 is Some;
            assert(once[i].0 == q);
            assert(once[i].1 is Some);
        }
        if has_move(once, q) {
            let i = choose|i: int| 0 <= i < once.len() && (#[trigger] once[i]).0 == q && once[i].1 is Some;
            assert(twice[i].0 == q);
        }
    }
    assert(moves_of(twice).dom() =~= moves_of(once).dom());
    let k = choose|k: int| 0 <= k < seat_ids(seats).len() && seat_ids(seats)[k] == p;
    assert(twice[k].0 == p && twice[k].1 == Some(second));
    assert(has_move(twice, p));
    let i = choose|i: int| 0 <= i < twice.len() && (#[trigger] twice[i]).0 == p && twice[i].1 is Some;
    if i != k {
        assert(seat_ids(seats)[i] == p);
    }
}

} // verus!
