//! The messages exchanged with the game server, as plain values.
use vstd::prelude::*;

verus! {

/// A card on the wire.
#[derive(Debug, Clone, Copy, PartialEq, Eq, Structural)]
pub struct Card {
    pub suit: i32,
    pub rank: i32,
}

/// A player on the wire.
#[derive(Debug)]
pub struct Player {
    pub name: String,
    pub score: i32,
    pub card_num: i32,
    pub index: u32,
    pub id: String,
}

/// The cards that a player played.
#[derive(Debug)]
pub struct PlayCards {
    pub cards: Vec<Card>,
    pub player: Option<Player>,
}

/// A player passes.
#[derive(Debug)]
pub struct Pass {
    pub player: Option<Player>,
}

/// The state of the table after a move, as the server sends it.
#[derive(Debug)]
pub struct Continue {
    /// The cards on the table.
    pub current_cards: Vec<Card>,
    /// The player whose turn it is.
    pub current_player: Option<Player>,
    /// The score on the table.
    pub score: i32,
    /// The last play of each player.
    pub players: Vec<PlayCards>,
    /// The hand of the receiving client.
    pub cards: Vec<Card>,
}

/// A refused move, with the reason.
#[derive(Debug)]
pub struct Fail {
    pub reason: String,
}

/// The game is over.
#[derive(Debug, Clone, Copy)]
pub struct End {}

/// The first message a client sends: who it is.
#[derive(Debug)]
pub struct ConnectRequest {
    pub id: String,
    pub name: String,
}

/// What a client asks of the server on the game stream.
#[derive(Debug)]
pub enum Request {
    PlayCards(PlayCards),
    Pass(Pass),
}

/// A message from the client on the game stream.
#[derive(Debug)]
pub struct StreamRequest {
    pub request: Option<Request>,
}

/// What the server tells a client on the game stream.
#[derive(Debug)]
pub enum Response {
    Continue(Continue),
    Fail(Fail),
    End(End),
}

/// A message from the server on the game stream.
#[derive(Debug)]
pub struct StreamResponse {
    pub response: Option<Response>,
}

} // verus!
