use vstd::prelude::*;
use vstd::relations::sorted_by;

use crate::card::{all_ranks_valid, card_order, hand_text, show_cards, Card};
use crate::proto;

verus! {

/// What a player is, with its texts taken as character sequences.
pub struct PlayerView {
    pub name: Seq<char>,
    pub score: i32,
    pub card_num: i32,
    pub index: u32,
    pub id: Seq<char>,
}

/// A player at the table: several may sit there, so it holds neither a
/// hand nor, for the others, an id.
#[derive(Debug)]
pub struct Player {
    pub name: String,
    pub score: i32,
    pub card_num: i32,
    pub index: u32,
    pub id: String,
}

impl View for Player {
    type V = PlayerView;

    open spec fn view(&self) -> PlayerView {
        PlayerView {
            name: self.name@,
            score: self.score,
            card_num: self.card_num,
            index: self.index,
            id: self.id@,
        }
    }
}

/// The player that a wire player stands for: the id is not kept.
pub open spec fn player_from_wire(p: proto::Player) -> PlayerView {
    PlayerView { name: p.name@, score: p.score, card_num: p.card_num, index: p.index, id: seq![] }
}

/// The wire form of a player.
pub open spec fn player_to_wire(p: Player) -> proto::Player {
    proto::Player { name: p.name, score: p.score, card_num: p.card_num, index: p.index, id: p.id }
}

impl Player {
    /// The player that a wire player stands for, with an empty id.
    pub fn from_wire(player: &proto::Player) -> (r: Player)
        ensures
            r@ == player_from_wire(*player),
    {
        Player {
            name: player.name.clone(),
            score: player.score,
            card_num: player.card_num,
            index: player.index,
            id: String::new(),
        }
    }
}

impl<'a> From<&'a Player> for proto::Player {
    fn from(player: &'a Player) -> (r: proto::Player) {
        proto::Player {
            name: player.name.clone(),
            score: player.score,
            card_num: player.card_num,
            index: player.index,
            id: player.id.clone(),
        }
    }
}

impl<'a> vstd::std_specs::convert::FromSpecImpl<&'a Player> for proto::Player {
    open spec fn obeys_from_spec() -> bool {
        true
    }

    open spec fn from_spec(player: &'a Player) -> proto::Player {
        player_to_wire(*player)
    }
}

/// The player who runs this client: its id, its name, its hand and how it
/// appears at the table.
pub struct Client {
    pub id: String,
    pub name: String,
    pub cards: Vec<Card>,
    pub player: Player,
}

impl Client {
    /// A client with an empty hand, sitting at index 0 with no score.
    pub fn new(id: String, name: String) -> (r: Self)
        ensures
            r.id@ == id@,
            r.name@ == name@,
            r.cards@ == Seq::<Card>::empty(),
            r.player@ == (PlayerView { name: name@, score: 0, card_num: 0, index: 0, id: id@ }),
    {
        Self {
            id: id.clone(),
            name: name.clone(),
            cards: Vec::new(),
            player: Player { name, score: 0, card_num: 0, index: 0, id },
        }
    }

    /// Replaces the hand with `cards`, kept in order (see `Card::sort_cards`).
    pub fn modify_cards(&mut self, cards: Vec<Card>)
        ensures
            final(self).cards@ == cards@.sort_by(card_order()),
            sorted_by(final(self).cards@, card_order()),
            final(self).cards@.to_multiset() == cards@.to_multiset(),
            final(self).id == old(self).id,
            final(self).name == old(self).name,
            final(self).player == old(self).player,
    {
        self.cards = cards;
        Card::sort_cards(self.cards.as_mut_slice());
    }

    /// The text of the hand: the cards' texts separated by single spaces.
    pub fn show_cards(&self) -> (s: String)
        requires
            all_ranks_valid(self.cards@),
        ensures
            s@ == hand_text(self.cards@),
    {
        show_cards(self.cards.as_slice())
    }
}

} // verus!
