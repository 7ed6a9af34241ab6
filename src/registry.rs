use vstd::prelude::*;
use crate::choice::{Choice, token_of};
use crate::command::{Command, decode_command, decoded};
use crate::resolver::{ClientId, Outcome, Resolution};
use crate::room::{
    GameError, MAX_PLAYERS_PER_ROOM, Room, RoomView, fresh_seats, game_error_text, move_effect,
    seat_ids, lemma_room_invariants,
};
use crate::responses::{
    Delivery, ErrorResponse, GameStartedResponse, JoinRoomResponse, Outgoing, Recipient,
    RematchResponse, RoomInfo, RoomListResponse, RoundResultResponse, copy_pairs, copy_strings,
    id_text, id_texts, ids_as_text, pair_texts, texts, uuid_text,
};

verus! {

/// All rooms by id, in order of creation, and the room-list watchers.
#[derive(Debug)]
pub struct AppState {
    pub rooms: Vec<(String, Room)>,
    pub room_watchers: Vec<ClientId>,
}

/// The abstract state of the registry.
pub struct AppStateView {
    pub rooms: Seq<(Seq<char>, RoomView)>,
    pub room_watchers: Seq<ClientId>,
}

impl View for AppState {
    type V = AppStateView;

    open spec fn view(&self) -> AppStateView {
        AppStateView {
            rooms: self.rooms@.map_values(|e: (String, Room)| (e.0@, e.1@)),
            room_watchers: self.room_watchers@,
        }
    }
}

/// The position of the room named `name`, or -1.
pub open spec fn pos_of(rooms: Seq<(Seq<char>, RoomView)>, name: Seq<char>) -> int {
    if exists|i: int| 0 <= i < rooms.len() && (#[trigger] rooms[i]).0 == name {
        choose|i: int| 0 <= i < rooms.len() && (#[trigger] rooms[i]).0 == name
    } else {
        -1
    }
}

/// Whether `client` is a member of the room named `name`.
pub open spec fn is_member(st: AppStateView, name: Seq<char>, client: ClientId) -> bool {
    let p = pos_of(st.rooms, name);
    p >= 0 && st.rooms[p].1.clients.contains(client)
}

/// The census: each room's id and member count, in registry order.
pub open spec fn census_of(rooms: Seq<(Seq<char>, RoomView)>) -> Seq<(Seq<char>, nat)> {
    rooms.map_values(|e: (Seq<char>, RoomView)| (e.0, e.1.clients.len()))
}

/// What a room-list message reports.
pub open spec fn census_view(l: RoomListResponse) -> Seq<(Seq<char>, nat)> {
    l.rooms@.map_values(|i: RoomInfo| (i.room_id@, i.client_count as nat))
}

/// Whether `m` is the census of `rooms`.
pub open spec fn is_census(m: Outgoing, rooms: Seq<(Seq<char>, RoomView)>) -> bool {
    match m {
        Outgoing::RoomList(l) => census_view(l) == census_of(rooms),
        _ => false,
    }
}

/// `ds` hands the census of `rooms` to each watcher of `ws`, in order.
pub open spec fn census_to_watchers(
    ds: Seq<Delivery>,
    ws: Seq<ClientId>,
    rooms: Seq<(Seq<char>, RoomView)>,
) -> bool {
    &&& ds.len() == ws.len()
    &&& forall|i: int|
        0 <= i < ds.len() ==> (#[trigger] ds[i]).to == Recipient::Watcher(ws[i]) && is_census(
            ds[i].message,
            rooms,
        )
}

/// The text of a join or leave notice.
pub open spec fn notice_text(joined: bool, client: ClientId, room: Seq<char>) -> Seq<char> {
    "Client "@ + uuid_text(client) + (if joined {
        " joined room "@
    } else {
        " left room "@
    }) + room
}

/// Whether `m` tells `recipient` that `client` joined (or left) `room`.
pub open spec fn is_notice(
    m: Outgoing,
    room: Seq<char>,
    client: ClientId,
    recipient: ClientId,
    joined: bool,
) -> bool {
    match m {
        Outgoing::Join(j) => {
            &&& j.success
            &&& j.room_id is Some && j.room_id.unwrap()@ == room
            &&& j.message is Some && j.message.unwrap()@ == notice_text(joined, client, room)
            &&& j.my_id is Some && j.my_id.unwrap()@ == uuid_text(recipient)
        },
        _ => false,
    }
}

/// `ds` hands each of `members`, in order, a notice about `client`.
pub open spec fn notices(
    ds: Seq<Delivery>,
    members: Seq<ClientId>,
    room: Seq<char>,
    client: ClientId,
    joined: bool,
) -> bool {
    &&& ds.len() == members.len()
    &&& forall|i: int|
        0 <= i < ds.len() ==> (#[trigger] ds[i]).to == Recipient::Client(members[i]) && is_notice(
            ds[i].message,
            room,
            client,
            members[i],
            joined,
        )
}

/// The text that turns away a client from a full room.
pub open spec fn full_text() -> Seq<char> {
    "Room is full (max 10 players)"@
}

/// The rooms after `client` joins the room named `name`, which is created
/// when there is none.
pub open spec fn rooms_after_join(
    rooms: Seq<(Seq<char>, RoomView)>,
    name: Seq<char>,
    client: ClientId,
) -> Seq<(Seq<char>, RoomView)> {
    let p = pos_of(rooms, name);
    if p >= 0 {
        rooms.update(
            p,
            (name, RoomView { clients: rooms[p].1.clients.push(client), ..rooms[p].1 }),
        )
    } else {
        rooms.push(
            (name, RoomView { clients: seq![client], game_active: false, seats: Seq::empty() }),
        )
    }
}

/// Whether the room named `name` exists and is at capacity.
pub open spec fn room_full(rooms: Seq<(Seq<char>, RoomView)>, name: Seq<char>) -> bool {
    let p = pos_of(rooms, name);
    p >= 0 && rooms[p].1.clients.len() >= MAX_PLAYERS_PER_ROOM
}

/// The rooms after a member leaves the room named `name`, leaving `rest`:
/// the room goes when it has no member left, and is idle otherwise.
pub open spec fn rooms_after_leave(
    rooms: Seq<(Seq<char>, RoomView)>,
    name: Seq<char>,
    rest: Seq<ClientId>,
) -> Seq<(Seq<char>, RoomView)> {
    let p = pos_of(rooms, name);
    if rest.len() == 0 {
        rooms.remove(p)
    } else {
        rooms.update(p, (name, RoomView { clients: rest, game_active: false, seats: Seq::empty() }))
    }
}

/// The members of the room named `name`.
pub open spec fn members_of(st: AppStateView, name: Seq<char>) -> Seq<ClientId> {
    st.rooms[pos_of(st.rooms, name)].1.clients
}

/// `ds` hands each of `members`, in order, a message that meets `f`.
pub open spec fn to_members(
    ds: Seq<Delivery>,
    members: Seq<ClientId>,
    f: spec_fn(Outgoing) -> bool,
) -> bool {
    &&& ds.len() == members.len()
    &&& forall|i: int|
        0 <= i < ds.len() ==> (#[trigger] ds[i]).to == Recipient::Client(members[i]) && f(
            ds[i].message,
        )
}

/// Whether `m` tells `client` that its command in `room` was refused with `e`.
pub open spec fn is_error(m: Outgoing, room: Seq<char>, client: ClientId, e: GameError) -> bool {
    match m {
        Outgoing::Error(x) => {
            &&& x.event@ == "error"@
            &&& x.room_id is Some && x.room_id.unwrap()@ == room
            &&& x.message@ == game_error_text(e)
            &&& x.my_id is Some && x.my_id.unwrap()@ == uuid_text(client)
        },
        _ => false,
    }
}

/// `ds` is the one refusal `e` for `client`.
pub open spec fn error_only(ds: Seq<Delivery>, room: Seq<char>, client: ClientId, e: GameError) -> bool {
    &&& ds.len() == 1
    &&& ds[0].to == Recipient::Client(client)
    &&& is_error(ds[0].message, room, client, e)
}

/// Whether `m` announces a game in `room` among `players`.
pub open spec fn is_game_started(m: Outgoing, room: Seq<char>, players: Seq<ClientId>) -> bool {
    match m {
        Outgoing::GameStarted(g) => {
            &&& g.event@ == "game_started"@
            &&& g.room_id@ == room
            &&& texts(g.players@) == id_texts(players)
        },
        _ => false,
    }
}

/// The move snapshot as texts: each player's id and token.
pub open spec fn move_texts(plays: Seq<(ClientId, Choice)>) -> Seq<(Seq<char>, Seq<char>)> {
    plays.map_values(|p: (ClientId, Choice)| (uuid_text(p.0), token_of(p.1)))
}

/// Whether `m` announces the resolution `res` in `room`, after which the
/// room's active players are `next`.
pub open spec fn is_outcome_message(
    m: Outgoing,
    room: Seq<char>,
    res: Resolution,
    next: Seq<ClientId>,
) -> bool {
    match res.outcome {
        Outcome::SingleWinner(w) => match m {
            Outgoing::RoundResult(x) => {
                &&& x.event@ == "round_result"@
                &&& x.room_id@ == room
                &&& !x.tie
                &&& texts(x.winners@) == seq![uuid_text(w)]
                &&& pair_texts(x.moves@) == move_texts(res.moves@)
            },
            _ => false,
        },
        _ => match m {
            Outgoing::Rematch(x) => {
                &&& x.event@ == "rematch"@
                &&& x.room_id@ == room
                &&& texts(x.next_players@) == id_texts(next)
                &&& x.reason@ == (if res.outcome is Tie {
                    "tie_all"@
                } else {
                    "multiple_winners"@
                })
                &&& pair_texts(x.moves@) == move_texts(res.moves@)
            },
            _ => false,
        },
    }
}

/// What the deliveries of a move are, given what the room made of it.
pub open spec fn move_deliveries(
    ds: Seq<Delivery>,
    room: Seq<char>,
    client: ClientId,
    members: Seq<ClientId>,
    r: Result<Option<Resolution>, GameError>,
    after: RoomView,
) -> bool {
    match r {
        Err(e) => error_only(ds, room, client, e),
        Ok(None) => ds.len() == 0,
        Ok(Some(res)) => to_members(
            ds,
            members,
            |m: Outgoing| is_outcome_message(m, room, res, seat_ids(after.seats)),
        ),
    }
}

/// Whether `m` relays `text` as it is.
pub open spec fn is_text(m: Outgoing, text: Seq<char>) -> bool {
    match m {
        Outgoing::Text(t) => t@ == text,
        _ => false,
    }
}

/// What a `start` command of `client` in the room named `name` does.
pub open spec fn start_effect(
    before_st: AppStateView,
    after_st: AppStateView,
    name: Seq<char>,
    client: ClientId,
    ds: Seq<Delivery>,
) -> bool {
    &&& pos_of(before_st.rooms, name) == -1 ==> after_st == before_st && ds.len() == 0
    &&& pos_of(before_st.rooms, name) >= 0 ==> {
            let p = pos_of(before_st.rooms, name);
            let before = before_st.rooms[p].1;
            &&& before.game_active ==> after_st == before_st && error_only(
                ds,
                name,
                client,
                GameError::AlreadyActive,
            )
            &&& !before.game_active && before.clients.len() < 2 ==> after_st == before_st
                && error_only(ds, name, client, GameError::NotEnoughPlayers)
            &&& !before.game_active && before.clients.len() >= 2 ==> {
                &&& after_st.rooms == before_st.rooms.update(
                    p,
                    (
                        name,
                        RoomView {
                            clients: before.clients,
                            game_active: true,
                            seats: fresh_seats(before.clients),
                        },
                    ),
                )
                &&& to_members(
                    ds,
                    before.clients,
                    |m: Outgoing| is_game_started(m, name, before.clients),
                )
            }
        }
}

/// What a move of `client` with `c` in the room named `name` does.
pub open spec fn move_step(
    before_st: AppStateView,
    after_st: AppStateView,
    name: Seq<char>,
    client: ClientId,
    c: Choice,
    ds: Seq<Delivery>,
) -> bool {
    &&& pos_of(before_st.rooms, name) == -1 ==> after_st == before_st && ds.len() == 0
    &&& pos_of(before_st.rooms, name) >= 0 ==> {
            let p = pos_of(before_st.rooms, name);
            let before = before_st.rooms[p].1;
            let after = after_st.rooms[p].1;
            &&& after_st.rooms == before_st.rooms.update(p, (name, after))
            &&& exists|res: Result<Option<Resolution>, GameError>|
                move_effect(before, client, c, after, res) && #[trigger] move_deliveries(
                    ds,
                    name,
                    client,
                    before.clients,
                    res,
                    after,
                )
        }
}

/// In a well-formed registry every room has a member, its recorded moves
/// belong to its active players, its active players are members, and an
/// idle room has neither moves nor active players. Every operation of
/// `AppState` keeps the registry well formed.
pub proof fn lemma_registry_invariants(st: &AppState, i: int)
    requires
        st.wf(),
        0 <= i < st.rooms@.len(),
    ensures
        st.rooms@[i].1.clients@.len() > 0,
        st.rooms@[i].1.moves().dom().subset_of(st.rooms@[i].1.active_players()),
        st.rooms@[i].1.active_players().subset_of(st.rooms@[i].1.client_set()),
        !st.rooms@[i].1.game_active ==> st.rooms@[i].1.moves().dom() == Set::<ClientId>::empty()
            && st.rooms@[i].1.active_players() == Set::<ClientId>::empty(),
{
    lemma_room_invariants(&st.rooms@[i].1);
}

/// Replacing one room by a well-formed room with members, under the same
/// id, keeps the registry well formed.
proof fn lemma_replace_keeps_wf(a: &AppState, b: &AppState, i: int)
    requires
        a.wf(),
        0 <= i < a.rooms@.len(),
        b.rooms@.len() == a.rooms@.len(),
        b.room_watchers@ == a.room_watchers@,
        forall|j: int| 0 <= j < a.rooms@.len() && j != i ==> b.rooms@[j] == a.rooms@[j],
        b.rooms@[i].0@ == a.rooms@[i].0@,
        b.rooms@[i].1.wf(),
        b.rooms@[i].1.clients@.len() > 0,
    ensures
        b.wf(),
{
    assert forall|x: int, y: int|
        0 <= x < b.rooms@.len() && 0 <= y < b.rooms@.len() && x != y
            implies (#[trigger] b.rooms@[x]).0@ != (#[trigger] b.rooms@[y]).0@ by {
        assert(a.rooms@[x].0@ != a.rooms@[y].0@);
    }
    assert forall|x: int| 0 <= x < b.rooms@.len() implies (#[trigger] b.rooms@[x]).1.wf()
        && b.rooms@[x].1.clients@.len() > 0 by {
        if x != i {
            assert(b.rooms@[x] == a.rooms@[x]);
        }
    }
}

impl AppState {
    /// Room ids are distinct; every room is well formed and has a member;
    /// watchers are distinct.
    pub open spec fn wf(&self) -> bool {
        &&& forall|i: int, j: int|
            0 <= i < self.rooms@.len() && 0 <= j < self.rooms@.len() && i != j
                ==> (#[trigger] self.rooms@[i]).0@ != (#[trigger] self.rooms@[j]).0@
        &&& forall|i: int|
            0 <= i < self.rooms@.len() ==> (#[trigger] self.rooms@[i]).1.wf()
                && self.rooms@[i].1.clients@.len() > 0
        &&& self.room_watchers@.no_duplicates()
    }

    /// A registry with no rooms and no watchers.
    pub fn new() -> (r: AppState)
        ensures
            r.wf(),
            r@.rooms.len() == 0,
            r@.room_watchers.len() == 0,
    {
        AppState { rooms: Vec::new(), room_watchers: Vec::new() }
    }

    /// The position of the room named `name`.
    pub fn find_room(&self, name: &String) -> (r: Option<usize>)
        requires
            self.wf(),
        ensures
            r matches Some(i) ==> i as int == pos_of(self@.rooms, name@) && i < self.rooms@.len(),
            r is None <==> pos_of(self@.rooms, name@) == -1,
    {
        let mut i: usize = 0;
        while i < self.rooms.len()
            invariant
                i <= self.rooms@.len(),
                forall|j: int| 0 <= j < i ==> self.rooms@[j].0@ != name@,
                self.wf(),
            decreases self.rooms@.len() - i,
        {
            if self.rooms[i].0 == *name {
                assert(self@.rooms[i as int].0 == name@);
                let ghost p = pos_of(self@.rooms, name@);
                assert(self@.rooms[p].0 == name@);
                assert(self.rooms@[p].0@ == name@);
                proof {
                    if p != i as int {
                        assert(self.rooms@[p].0@ != self.rooms@[i as int].0@);
                    }
                }
                return Some(i);
            }
            i = i + 1;
        }
        assert(!exists|j: int| 0 <= j < self@.rooms.len() && (#[trigger] self@.rooms[j]).0 == name@)
            by {
            if exists|j: int| 0 <= j < self@.rooms.len() && (#[trigger] self@.rooms[j]).0 == name@ {
                let j = choose|j: int| 0 <= j < self@.rooms.len() && (#[trigger] self@.rooms[j]).0 == name@;
                assert(self.rooms@[j].0@ == name@);
            }
        }
        None
    }

    /// Whether `client` is a member of the room named `name`.
    pub fn has_member(&self, name: &String, client: ClientId) -> (r: bool)
        requires
            self.wf(),
        ensures
            r == is_member(self@, name@, client),
    {
        match self.find_room(name) {
            Some(i) => self.rooms[i].1.has_client(client),
            None => false,
        }
    }

    /// The census of all rooms.
    pub fn census(&self) -> (r: RoomListResponse)
        ensures
            census_view(r) == census_of(self@.rooms),
    {
        let mut rooms: Vec<RoomInfo> = Vec::new();
        let mut i: usize = 0;
        while i < self.rooms.len()
            invariant
                i <= self.rooms@.len(),
                rooms@.len() == i,
                forall|j: int|
                    0 <= j < i ==> (#[trigger] rooms@[j]).room_id@ == self.rooms@[j].0@
                        && rooms@[j].client_count == self.rooms@[j].1.clients@.len(),
            decreases self.rooms@.len() - i,
        {
            rooms.push(
                RoomInfo {
                    room_id: self.rooms[i].0.clone(),
                    client_count: self.rooms[i].1.clients.len(),
                },
            );
            i = i + 1;
        }
        let r = RoomListResponse { rooms };
        assert(census_view(r) =~= census_of(self@.rooms));
        r
    }

    /// The census, once for each watcher.
    fn census_for_watchers(&self) -> (r: Vec<Delivery>)
        ensures
            census_to_watchers(r@, self@.room_watchers, self@.rooms),
    {
        let mut r: Vec<Delivery> = Vec::new();
        let mut i: usize = 0;
        while i < self.room_watchers.len()
            invariant
                i <= self.room_watchers@.len(),
                census_to_watchers(r@, self@.room_watchers.take(i as int), self@.rooms),
            decreases self.room_watchers@.len() - i,
        {
            let m = Outgoing::RoomList(self.census());
            r.push(Delivery { to: Recipient::Watcher(self.room_watchers[i]), message: m });
            i = i + 1;
        }
        assert(self@.room_watchers.take(self@.room_watchers.len() as int) =~= self@.room_watchers);
        r
    }

    /// Registers a watcher and hands back the census it starts from.
    pub fn watch(&mut self, id: ClientId) -> (r: RoomListResponse)
        requires
            old(self).wf(),
        ensures
            final(self).wf(),
            census_view(r) == census_of(old(self)@.rooms),
            final(self)@.rooms == old(self)@.rooms,
            final(self)@.room_watchers == if old(self)@.room_watchers.contains(id) {
                old(self)@.room_watchers
            } else {
                old(self)@.room_watchers.push(id)
            },
    {
        let r = self.census();
        let mut i: usize = 0;
        while i < self.room_watchers.len()
            invariant
                i <= self.room_watchers@.len(),
                forall|j: int| 0 <= j < i ==> self.room_watchers@[j] != id,
                self.wf(),
                self@ == old(self)@,
                census_view(r) == census_of(old(self)@.rooms),
            decreases self.room_watchers@.len() - i,
        {
            if self.room_watchers[i] == id {
                return r;
            }
            i = i + 1;
        }
        self.room_watchers.push(id);
        assert forall|a: int, b: int|
            0 <= a < self.room_watchers@.len() && 0 <= b < self.room_watchers@.len() && a != b
                implies self.room_watchers@[a] != self.room_watchers@[b] by {
            assert(old(self).room_watchers@.no_duplicates());
        }
        r
    }

    /// Unregisters a watcher.
    pub fn unwatch(&mut self, id: ClientId)
        requires
            old(self).wf(),
        ensures
            final(self).wf(),
            final(self)@.rooms == old(self)@.rooms,
            !final(self)@.room_watchers.contains(id),
            forall|w: ClientId|
                w != id ==> (final(self)@.room_watchers.contains(w)
                    <==> old(self)@.room_watchers.contains(w)),
    {
        let mut i: usize = 0;
        while i < self.room_watchers.len()
            invariant
                i <= self.room_watchers@.len(),
                forall|j: int| 0 <= j < i ==> self.room_watchers@[j] != id,
                self.wf(),
                self@ == old(self)@,
            decreases self.room_watchers@.len() - i,
        {
            if self.room_watchers[i] == id {
                let ghost before = self.room_watchers@;
                self.room_watchers.remove(i);
                assert forall|a: int, b: int|
                    0 <= a < self.room_watchers@.len() && 0 <= b < self.room_watchers@.len() && a
                        != b implies self.room_watchers@[a] != self.room_watchers@[b] by {
                    let a0 = if a < i { a } else { a + 1 };
                    let b0 = if b < i { b } else { b + 1 };
                    assert(self.room_watchers@[a] == before[a0]);
                    assert(self.room_watchers@[b] == before[b0]);
                }
                assert forall|w: ClientId| #![auto] self.room_watchers@.contains(w) <==> (before.contains(w) && w != id) by {
                    if self.room_watchers@.contains(w) {
                        let k = choose|k: int| 0 <= k < self.room_watchers@.len() && self.room_watchers@[k] == w;
                        let k0 = if k < i { k } else { k + 1 };
                        assert(before[k0] == w);
                    }
                    if before.contains(w) && w != id {
                        let k = choose|k: int| 0 <= k < before.len() && before[k] == w;
                        assert(k != i);
                        let k1 = if k < i { k } else { k - 1 };
                        assert(self.room_watchers@[k1] == w);
                    }
                }
                return;
            }
            i = i + 1;
        }
    }

    /// Joins `client` to the room named `name`, creating the room when there
    /// is none. A full room turns the client away with the notice to send
    /// before closing; otherwise every member, the newcomer included, gets a
    /// join notice that carries the member's own id, and every watcher the
    /// new census.
    pub fn join(&mut self, name: &String, client: ClientId) -> (r: Result<
        Vec<Delivery>,
        JoinRoomResponse,
    >)
        requires
            old(self).wf(),
            !is_member(old(self)@, name@, client),
        ensures
            final(self).wf(),
            room_full(old(self)@.rooms, name@) ==> final(self)@ == old(self)@ && match r {
                Err(j) => {
                    &&& !j.success
                    &&& j.room_id is Some && j.room_id.unwrap()@ == name@
                    &&& j.message is Some && j.message.unwrap()@ == full_text()
                    &&& j.my_id is Some && j.my_id.unwrap()@ == uuid_text(client)
                },
                Ok(_) => false,
            },
            !room_full(old(self)@.rooms, name@) ==> {
                &&& final(self)@.rooms == rooms_after_join(old(self)@.rooms, name@, client)
                &&& final(self)@.room_watchers == old(self)@.room_watchers
                &&& match r {
                    Ok(ds) => {
                        let members = final(self)@.rooms[pos_of(final(self)@.rooms, name@)].1.clients;
                        &&& notices(ds@.take(members.len() as int), members, name@, client, true)
                        &&& census_to_watchers(
                            ds@.skip(members.len() as int),
                            final(self)@.room_watchers,
                            final(self)@.rooms,
                        )
                    },
                    Err(_) => false,
                }
            },
    {
        let i = match self.find_room(name) {
            Some(i) => {
                if self.rooms[i].1.clients.len() >= MAX_PLAYERS_PER_ROOM {
                    let text = String::from_str("Room is full (max 10 players)");
                    return Err(
                        JoinRoomResponse {
                            success: false,
                            room_id: Some(name.clone()),
                            message: Some(text),
                            my_id: Some(id_text(client)),
                        },
                    );
                }
                let ghost old_rooms = self.rooms@;
                let (n, mut room) = self.rooms.remove(i);
                room.add_client(client);
                self.rooms.insert(i, (n, room));
                assert(self.rooms@ =~= old_rooms.update(i as int, self.rooms@[i as int]));
                assert(self@.rooms =~= rooms_after_join(old(self)@.rooms, name@, client));
                i
            },
            None => {
                let mut room = Room::new();
                room.add_client(client);
                assert(room.clients@ =~= seq![client]);
                assert(room.seats@ =~= Seq::<(ClientId, Option<crate::choice::Choice>)>::empty());
                self.rooms.push((name.clone(), room));
                assert(self@.rooms =~= rooms_after_join(old(self)@.rooms, name@, client));
                self.rooms.len() - 1
            },
        };
        proof {
            assert forall|a: int, b: int|
                0 <= a < self.rooms@.len() && 0 <= b < self.rooms@.len() && a != b
                    implies (#[trigger] self.rooms@[a]).0@ != (#[trigger] self.rooms@[b]).0@ by {
                if a != i && b != i && a < old(self).rooms@.len() && b < old(self).rooms@.len() {
                    assert(old(self).rooms@[a] == self.rooms@[a]);
                    assert(old(self).rooms@[b] == self.rooms@[b]);
                } else if a == i as int {
                    if b < old(self).rooms@.len() {
                        assert(old(self)@.rooms[b].0 == self@.rooms[b].0);
                    }
                } else {
                    if a < old(self).rooms@.len() {
                        assert(old(self)@.rooms[a].0 == self@.rooms[a].0);
                    }
                }
            }
            assert(self@.rooms[i as int].0 == name@);
            let p = pos_of(self@.rooms, name@);
            if p != i as int {
                assert(self.rooms@[p].0@ != self.rooms@[i as int].0@);
            }
        }
        let mut ds = Self::notices_for(name, client, true, &self.rooms[i].1.clients);
        let ghost n = ds@.len();
        let ghost notes = ds@;
        let mut ws = self.census_for_watchers();
        let ghost for_watchers = ws@;
        ds.append(&mut ws);
        assert(ds@.take(n as int) =~= notes);
        assert(ds@.skip(n as int) =~= for_watchers);
        Ok(ds)
    }

    /// A join or leave notice about `client` for each of `members`.
    fn notices_for(name: &String, client: ClientId, joined: bool, members: &Vec<ClientId>) -> (r: Vec<Delivery>)
        ensures
            notices(r@, members@, name@, client, joined),
    {
        let mut r: Vec<Delivery> = Vec::new();
        let mut i: usize = 0;
        while i < members.len()
            invariant
                i <= members@.len(),
                notices(r@, members@.take(i as int), name@, client, joined),
            decreases members@.len() - i,
        {
            let mut text = String::from_str("Client ");
            let who = id_text(client);
            text.append(who.as_str());
            if joined {
                text.append(" joined room ");
            } else {
                text.append(" left room ");
            }
            text.append(name.as_str());
            let m = JoinRoomResponse {
                success: true,
                room_id: Some(name.clone()),
                message: Some(text),
                my_id: Some(id_text(members[i])),
            };
            r.push(Delivery { to: Recipient::Client(members[i]), message: Outgoing::Join(m) });
            i = i + 1;
        }
        assert(members@.take(members@.len() as int) =~= members@);
        r
    }

    /// Removes `client` from the room named `name`. A running game there is
    /// abandoned without a result; the remaining members get a leave notice
    /// that carries their own id; the room goes when it is empty; every
    /// watcher gets the new census.
    pub fn leave(&mut self, name: &String, client: ClientId) -> (r: Vec<Delivery>)
        requires
            old(self).wf(),
        ensures
            final(self).wf(),
            final(self)@.room_watchers == old(self)@.room_watchers,
            !is_member(old(self)@, name@, client) ==> final(self)@ == old(self)@
                && census_to_watchers(r@, old(self)@.room_watchers, old(self)@.rooms),
            is_member(old(self)@, name@, client) ==> exists|k: int|
                0 <= k < members_of(old(self)@, name@).len() && members_of(old(self)@, name@)[k]
                    == client && {
                    let rest = #[trigger] members_of(old(self)@, name@).remove(k);
                    &&& final(self)@.rooms == rooms_after_leave(old(self)@.rooms, name@, rest)
                    &&& notices(r@.take(rest.len() as int), rest, name@, client, false)
                    &&& census_to_watchers(
                        r@.skip(rest.len() as int),
                        final(self)@.room_watchers,
                        final(self)@.rooms,
                    )
                },
    {
        let i = match self.find_room(name) {
            Some(i) => i,
            None => {
                return self.census_for_watchers();
            },
        };
        if !self.rooms[i].1.has_client(client) {
            return self.census_for_watchers();
        }
        let ghost old_rooms = self.rooms@;
        let ghost old_members = self.rooms@[i as int].1.clients@;
        let (n, mut room) = self.rooms.remove(i);
        let ghost removed = self.rooms@;
        room.remove_client(client);
        let mut ds = Self::notices_for(name, client, false, &room.clients);
        let ghost rest = room.clients@;
        assert(pos_of(old(self)@.rooms, name@) == i as int);
        assert(old(self)@.rooms[i as int].0 == name@);
        if room.clients.len() == 0 {
            assert(self@.rooms =~= old(self)@.rooms.remove(i as int));
            assert(self@.rooms == rooms_after_leave(old(self)@.rooms, name@, rest));
        } else {
            assert(room.seats@ =~= Seq::<(ClientId, Option<crate::choice::Choice>)>::empty());
            assert(n@ == name@);
            self.rooms.insert(i, (n, room));
            assert(self.rooms@ =~= old_rooms.update(i as int, self.rooms@[i as int]));
            assert(self@.rooms =~= old(self)@.rooms.update(i as int, self@.rooms[i as int]));
            assert(self@.rooms == rooms_after_leave(old(self)@.rooms, name@, rest));
        }
        proof {
            assert forall|a: int, b: int|
                0 <= a < self.rooms@.len() && 0 <= b < self.rooms@.len() && a != b
                    implies (#[trigger] self.rooms@[a]).0@ != (#[trigger] self.rooms@[b]).0@ by {
                if rest.len() == 0 {
                    let a0 = if a < i { a } else { a + 1 };
                    let b0 = if b < i { b } else { b + 1 };
                    assert(self.rooms@[a] == old_rooms[a0]);
                    assert(self.rooms@[b] == old_rooms[b0]);
                } else {
                    if a != i && b != i {
                        assert(self.rooms@[a] == old_rooms[a]);
                        assert(self.rooms@[b] == old_rooms[b]);
                    } else if a == i {
                        assert(self.rooms@[b] == old_rooms[b]);
                        assert(old_rooms[a].0@ != old_rooms[b].0@);
                    } else {
                        assert(self.rooms@[a] == old_rooms[a]);
                        assert(old_rooms[a].0@ != old_rooms[b].0@);
                    }
                }
            }
            assert forall|a: int| 0 <= a < self.rooms@.len() implies (#[trigger] self.rooms@[a]).1.wf()
                && self.rooms@[a].1.clients@.len() > 0 by {
                if rest.len() == 0 {
                    let a0 = if a < i { a } else { a + 1 };
                    assert(self.rooms@[a] == old_rooms[a0]);
                } else if a != i {
                    assert(self.rooms@[a] == old_rooms[a]);
                }
            }
            assert(pos_of(old(self)@.rooms, name@) == i as int);
            assert(members_of(old(self)@, name@) == old_members);
        }
        let ghost k = choose|k: int|
            0 <= k < old_members.len() && old_members[k] == client && rest == old_members.remove(k);
        let ghost nd = ds@.len();
        let ghost notes = ds@;
        let mut ws = self.census_for_watchers();
        let ghost for_watchers = ws@;
        ds.append(&mut ws);
        assert(ds@.take(nd as int) =~= notes);
        assert(ds@.skip(nd as int) =~= for_watchers);
        proof {
            assert(members_of(old(self)@, name@).remove(k) == rest);
            assert(self@.rooms == rooms_after_leave(old(self)@.rooms, name@, rest));
            assert(notices(ds@.take(rest.len() as int), rest, name@, client, false));
            assert(census_to_watchers(ds@.skip(rest.len() as int), self@.room_watchers, self@.rooms));
        }
        ds
    }

    /// Puts `room` in place of the room at `i`, under the same id, and hands
    /// back the room that was there.
    fn swap_room(&mut self, i: usize, room: Room) -> (r: Room)
        requires
            i < old(self).rooms@.len(),
        ensures
            final(self).rooms@ == old(self).rooms@.update(i as int, (old(self).rooms@[i as int].0, room)),
            final(self).room_watchers@ == old(self).room_watchers@,
            r == old(self).rooms@[i as int].1,
    {
        let (n, previous) = self.rooms.remove(i);
        self.rooms.insert(i, (n, room));
        assert(self.rooms@ =~= old(self).rooms@.update(i as int, (old(self).rooms@[i as int].0, room)));
        previous
    }

    /// The refusal `e` for `client`.
    fn refusal(name: &String, client: ClientId, e: GameError) -> (r: Vec<Delivery>)
        ensures
            error_only(r@, name@, client, e),
    {
        let m = ErrorResponse {
            event: String::from_str("error"),
            room_id: Some(name.clone()),
            message: e.message(),
            my_id: Some(id_text(client)),
        };
        let mut r: Vec<Delivery> = Vec::new();
        r.push(Delivery { to: Recipient::Client(client), message: Outgoing::Error(m) });
        r
    }

    /// The game-started announcement for each member.
    fn game_started_for(name: &String, members: &Vec<ClientId>) -> (r: Vec<Delivery>)
        ensures
            to_members(r@, members@, |m: Outgoing| is_game_started(m, name@, members@)),
    {
        let players = ids_as_text(members);
        let mut r: Vec<Delivery> = Vec::new();
        let mut i: usize = 0;
        while i < members.len()
            invariant
                i <= members@.len(),
                texts(players@) == id_texts(members@),
                to_members(r@, members@.take(i as int), |m: Outgoing| is_game_started(m, name@, members@)),
            decreases members@.len() - i,
        {
            let g = GameStartedResponse {
                event: String::from_str("game_started"),
                room_id: name.clone(),
                players: copy_strings(&players),
            };
            r.push(Delivery { to: Recipient::Client(members[i]), message: Outgoing::GameStarted(g) });
            i = i + 1;
        }
        assert(members@.take(members@.len() as int) =~= members@);
        r
    }

    /// The move snapshot as texts.
    fn move_pairs(plays: &Vec<(ClientId, Choice)>) -> (r: Vec<(String, String)>)
        ensures
            pair_texts(r@) == move_texts(plays@),
    {
        let mut r: Vec<(String, String)> = Vec::new();
        let mut i: usize = 0;
        while i < plays.len()
            invariant
                i <= plays@.len(),
                r@.len() == i,
                forall|j: int|
                    0 <= j < i ==> (#[trigger] r@[j]).0@ == uuid_text(plays@[j].0) && r@[j].1@
                        == token_of(plays@[j].1),
            decreases plays@.len() - i,
        {
            r.push((id_text(plays[i].0), plays[i].1.token()));
            i = i + 1;
        }
        assert(pair_texts(r@) =~= move_texts(plays@));
        r
    }

    /// The announcement of `res` for each member; `next` are the active
    /// players that remain.
    fn outcome_for(
        name: &String,
        members: &Vec<ClientId>,
        res: &Resolution,
        next: &Vec<ClientId>,
    ) -> (r: Vec<Delivery>)
        ensures
            to_members(r@, members@, |m: Outgoing| is_outcome_message(m, name@, *res, next@)),
    {
        let moves = Self::move_pairs(&res.moves);
        let next_text = ids_as_text(next);
        let mut r: Vec<Delivery> = Vec::new();
        let mut i: usize = 0;
        while i < members.len()
            invariant
                i <= members@.len(),
                pair_texts(moves@) == move_texts(res.moves@),
                texts(next_text@) == id_texts(next@),
                to_members(r@, members@.take(i as int), |m: Outgoing| is_outcome_message(m, name@, *res, next@)),
            decreases members@.len() - i,
        {
            let m = match &res.outcome {
                Outcome::SingleWinner(w) => {
                    let mut winners: Vec<String> = Vec::new();
                    winners.push(id_text(*w));
                    assert(texts(winners@) =~= seq![uuid_text(*w)]);
                    Outgoing::RoundResult(
                        RoundResultResponse {
                            event: String::from_str("round_result"),
                            room_id: name.clone(),
                            tie: false,
                            winners,
                            moves: copy_pairs(&moves),
                        },
                    )
                },
                Outcome::Tie => Outgoing::Rematch(
                    RematchResponse {
                        event: String::from_str("rematch"),
                        room_id: name.clone(),
                        next_players: copy_strings(&next_text),
                        reason: String::from_str("tie_all"),
                        moves: copy_pairs(&moves),
                    },
                ),
                Outcome::MultiWinners(_) => Outgoing::Rematch(
                    RematchResponse {
                        event: String::from_str("rematch"),
                        room_id: name.clone(),
                        next_players: copy_strings(&next_text),
                        reason: String::from_str("multiple_winners"),
                        moves: copy_pairs(&moves),
                    },
                ),
            };
            r.push(Delivery { to: Recipient::Client(members[i]), message: m });
            i = i + 1;
        }
        assert(members@.take(members@.len() as int) =~= members@);
        r
    }

    /// A `start` command of `client` in the room named `name`.
    pub fn start(&mut self, name: &String, client: ClientId) -> (r: Vec<Delivery>)
        requires
            old(self).wf(),
        ensures
            final(self).wf(),
            final(self)@.room_watchers == old(self)@.room_watchers,
            start_effect(old(self)@, final(self)@, name@, client, r@),
    {
        let i = match self.find_room(name) {
            Some(i) => i,
            None => {
                return Vec::new();
            },
        };
        let ghost orig = *self;
        let mut room = self.swap_room(i, Room::new());
        let started = room.start();
        self.swap_room(i, room);
        proof {
            lemma_replace_keeps_wf(&orig, self, i as int);
            assert(self@.rooms =~= orig@.rooms.update(i as int, (name@, self@.rooms[i as int].1)));
        }
        match started {
            Err(e) => {
                assert(self@ == orig@) by {
                    assert(self@.rooms =~= orig@.rooms);
                }
                Self::refusal(name, client, e)
            },
            Ok(()) => Self::game_started_for(name, &self.rooms[i].1.clients),
        }
    }

    /// A move of `client` with `c` in the room named `name`; once every
    /// active player has moved, the outcome goes to every member.
    pub fn submit_move(&mut self, name: &String, client: ClientId, c: Choice) -> (r: Vec<Delivery>)
        requires
            old(self).wf(),
        ensures
            final(self).wf(),
            final(self)@.room_watchers == old(self)@.room_watchers,
            move_step(old(self)@, final(self)@, name@, client, c, r@),
    {
        let i = match self.find_room(name) {
            Some(i) => i,
            None => {
                return Vec::new();
            },
        };
        let ghost orig = *self;
        let mut room = self.swap_room(i, Room::new());
        let ghost before = room@;
        let res = room.submit_move(client, c);
        let ghost after = room@;
        let ds = match &res {
            Err(e) => Self::refusal(name, client, *e),
            Ok(None) => Vec::new(),
            Ok(Some(resolution)) => {
                let mut next: Vec<ClientId> = Vec::new();
                let mut k: usize = 0;
                while k < room.seats.len()
                    invariant
                        k <= room.seats@.len(),
                        next@ == seat_ids(room.seats@).take(k as int),
                    decreases room.seats@.len() - k,
                {
                    next.push(room.seats[k].0);
                    k = k + 1;
                    assert(next@ =~= seat_ids(room.seats@).take(k as int));
                }
                assert(seat_ids(room.seats@).take(room.seats@.len() as int) =~= seat_ids(room.seats@));
                Self::outcome_for(name, &room.clients, resolution, &next)
            },
        };
        self.swap_room(i, room);
        proof {
            lemma_replace_keeps_wf(&orig, self, i as int);
            assert(self@.rooms =~= orig@.rooms.update(i as int, (name@, self@.rooms[i as int].1)));
            assert(move_deliveries(ds@, name@, client, before.clients, res, after));
            assert(orig@.rooms[i as int].1 == before);
            assert(self@.rooms[i as int].1 == after);
            assert(move_effect(orig@.rooms[i as int].1, client, c, self@.rooms[i as int].1, res));
            assert(move_deliveries(ds@, name@, client, orig@.rooms[i as int].1.clients, res, self@.rooms[i as int].1));
        }
        ds
    }

    /// Handles one inbound text of `client` in the room named `name`.
    pub fn handle_message(&mut self, name: &String, client: ClientId, text: &str) -> (r: Vec<
        Delivery,
    >)
        requires
            old(self).wf(),
        ensures
            final(self).wf(),
            final(self)@.room_watchers == old(self)@.room_watchers,
            ({
                let p = pos_of(old(self)@.rooms, name@);
                match decoded(text@) {
                    Command::Text => final(self)@ == old(self)@ && (p >= 0 ==> to_members(
                        r@,
                        old(self)@.rooms[p].1.clients,
                        |m: Outgoing| is_text(m, text@),
                    )) && (p == -1 ==> r@.len() == 0),
                    Command::Unknown => final(self)@ == old(self)@ && unknown_only(r@, name@, client),
                    Command::InvalidChoice => final(self)@ == old(self)@ && error_only(
                        r@,
                        name@,
                        client,
                        GameError::InvalidChoice,
                    ),
                    Command::Start => start_effect(old(self)@, final(self)@, name@, client, r@),
                    Command::Move(c) => move_step(old(self)@, final(self)@, name@, client, c, r@),
                }
            }),
    {
        let cmd = decode_command(text);
        match cmd {
            Command::Start => self.start(name, client),
            Command::Move(c) => self.submit_move(name, client, c),
            Command::InvalidChoice => Self::refusal(name, client, GameError::InvalidChoice),
            Command::Unknown => {
                let m = ErrorResponse {
                    event: String::from_str("error"),
                    room_id: Some(name.clone()),
                    message: String::from_str("Unknown action"),
                    my_id: Some(id_text(client)),
                };
                let mut r: Vec<Delivery> = Vec::new();
                r.push(Delivery { to: Recipient::Client(client), message: Outgoing::Error(m) });
                r
            },
            Command::Text => match self.find_room(name) {
                Some(i) => {
                    let members = &self.rooms[i].1.clients;
                    let mut r: Vec<Delivery> = Vec::new();
                    let mut k: usize = 0;
                    while k < members.len()
                        invariant
                            k <= members@.len(),
                            to_members(r@, members@.take(k as int), |m: Outgoing| is_text(m, text@)),
                        decreases members@.len() - k,
                    {
                        r.push(
                            Delivery {
                                to: Recipient::Client(members[k]),
                                message: Outgoing::Text(String::from_str(text)),
                            },
                        );
                        k = k + 1;
                    }
                    assert(members@.take(members@.len() as int) =~= members@);
                    r
                },
                None => Vec::new(),
            },
        }
    }
}

/// `ds` is the one "unknown action" reply for `client`.
pub open spec fn unknown_only(ds: Seq<Delivery>, room: Seq<char>, client: ClientId) -> bool {
    &&& ds.len() == 1
    &&& ds[0].to == Recipient::Client(client)
    &&& match ds[0].message {
        Outgoing::Error(x) => {
            &&& x.event@ == "error"@
            &&& x.room_id is Some && x.room_id.unwrap()@ == room
            &&& x.message@ == "Unknown action"@
            &&& x.my_id is Some && x.my_id.unwrap()@ == uuid_text(client)
        },
        _ => false,
    }
}

} // verus!
