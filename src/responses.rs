use vstd::prelude::*;
use crate::resolver::ClientId;

verus! {

/// Sent to each member when a client joins or leaves, and to a client that
/// a full room turns away.
#[derive(Debug)]
pub struct JoinRoomResponse {
    pub success: bool,
    pub room_id: Option<String>,
    pub message: Option<String>,
    pub my_id: Option<String>,
}

/// The census of all rooms, sent to watchers.
#[derive(Debug)]
pub struct RoomListResponse {
    pub rooms: Vec<RoomInfo>,
}

/// One room of the census.
#[derive(Debug)]
pub struct RoomInfo {
    pub room_id: String,
    pub client_count: usize,
}

/// Sent to every member when a game starts.
#[derive(Debug)]
pub struct GameStartedResponse {
    pub event: String,
    pub room_id: String,
    pub players: Vec<String>,
}

/// Sent to every member when a single winner emerges.
#[derive(Debug)]
pub struct RoundResultResponse {
    pub event: String,
    pub room_id: String,
    pub tie: bool,
    pub winners: Vec<String>,
    pub moves: Vec<(String, String)>,
}

/// Sent to the requester of a command that was refused.
#[derive(Debug)]
pub struct ErrorResponse {
    pub event: String,
    pub room_id: Option<String>,
    pub message: String,
    pub my_id: Option<String>,
}

/// Sent to every member when a sub-round ends without a single winner.
#[derive(Debug)]
pub struct RematchResponse {
    pub event: String,
    pub room_id: String,
    pub next_players: Vec<String>,
    pub reason: String,
    pub moves: Vec<(String, String)>,
}

/// A message for one recipient.
#[derive(Debug)]
pub enum Outgoing {
    Join(JoinRoomResponse),
    RoomList(RoomListResponse),
    GameStarted(GameStartedResponse),
    RoundResult(RoundResultResponse),
    Error(ErrorResponse),
    Rematch(RematchResponse),
    Text(String),
}

/// Who a message goes to: a room member or a room-list watcher.
#[derive(Clone, Copy, Debug, PartialEq, Eq, Structural)]
pub enum Recipient {
    Client(ClientId),
    Watcher(ClientId),
}

/// A message and its recipient.
#[derive(Debug)]
pub struct Delivery {
    pub to: Recipient,
    pub message: Outgoing,
}

/// What the hyphenated lower-case form of a UUID reads for a 128-bit value.
pub uninterp spec fn uuid_text(id: u128) -> Seq<char>;

/// Relies on `uuid::Uuid::from_u128` and uuid's `Display` for `Uuid`, which
/// writes the hyphenated lower-case form: a function of the value alone.
#[verifier::external_body]
pub(crate) fn id_text(id: ClientId) -> (r: String)
    ensures
        r@ == uuid_text(id),
{
    uuid::Uuid::from_u128(id).to_string()
}

/// The texts of a list of strings.
pub open spec fn texts(v: Seq<String>) -> Seq<Seq<char>> {
    v.map_values(|s: String| s@)
}

/// The texts of a list of ids.
pub open spec fn id_texts(ids: Seq<ClientId>) -> Seq<Seq<char>> {
    ids.map_values(|p: ClientId| uuid_text(p))
}

/// The id texts of a list of ids.
pub fn ids_as_text(ids: &Vec<ClientId>) -> (r: Vec<String>)
    ensures
        texts(r@) == id_texts(ids@),
{
    let mut r: Vec<String> = Vec::new();
    let mut i: usize = 0;
    while i < ids.len()
        invariant
            i <= ids@.len(),
            r@.len() == i,
            forall|j: int| 0 <= j < i ==> (#[trigger] r@[j])@ == uuid_text(ids@[j]),
        decreases ids@.len() - i,
    {
        r.push(id_text(ids[i]));
        i = i + 1;
    }
    assert(texts(r@) =~= id_texts(ids@));
    r
}

/// A copy of a list of strings.
pub fn copy_strings(v: &Vec<String>) -> (r: Vec<String>)
    ensures
        texts(r@) == texts(v@),
{
    let mut r: Vec<String> = Vec::new();
    let mut i: usize = 0;
    while i < v.len()
        invariant
            i <= v@.len(),
            r@.len() == i,
            forall|j: int| 0 <= j < i ==> (#[trigger] r@[j])@ == v@[j]@,
        decreases v@.len() - i,
    {
        r.push(v[i].clone());
        i = i + 1;
    }
    assert(texts(r@) =~= texts(v@));
    r
}

/// The texts of a list of string pairs.
pub open spec fn pair_texts(v: Seq<(String, String)>) -> Seq<(Seq<char>, Seq<char>)> {
    v.map_values(|p: (String, String)| (p.0@, p.1@))
}

/// A copy of a list of string pairs.
pub fn copy_pairs(v: &Vec<(String, String)>) -> (r: Vec<(String, String)>)
    ensures
        pair_texts(r@) == pair_texts(v@),
{
    let mut r: Vec<(String, String)> = Vec::new();
    let mut i: usize = 0;
    while i < v.len()
        invariant
            i <= v@.len(),
            r@.len() == i,
            forall|j: int| 0 <= j < i ==> (#[trigger] r@[j]).0@ == v@[j].0@ && r@[j].1@ == v@[j].1@,
        decreases v@.len() - i,
    {
        r.push((v[i].0.clone(), v[i].1.clone()));
        i = i + 1;
    }
    assert(pair_texts(r@) =~= pair_texts(v@));
    r
}

} // verus!
