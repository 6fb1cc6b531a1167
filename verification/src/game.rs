use std::collections::HashMap;

use vstd::prelude::*;

use crate::card::{card_from_wire, card_order, card_to_wire, Card};
use crate::player::{player_from_wire, player_to_wire, Client, Player, PlayerView};
use crate::proto;

verus! {

broadcast use vstd::std_specs::hash::group_hash_axioms;

/// The cards that a sequence of wire cards stands for.
pub open spec fn cards_from_wire(s: Seq<proto::Card>) -> Seq<Card> {
    s.map_values(|c: proto::Card| card_from_wire(c))
}

/// The wire form of a sequence of cards.
pub open spec fn cards_to_wire(s: Seq<Card>) -> Seq<proto::Card> {
    s.map_values(|c: Card| card_to_wire(c))
}

/// Wire cards convert one for one and in order: the i-th card has the
/// suit and rank of the i-th wire card.
pub proof fn lemma_cards_from_wire(s: Seq<proto::Card>)
    ensures
        cards_from_wire(s).len() == s.len(),
        forall|i: int|
            0 <= i < s.len() ==> #[trigger] cards_from_wire(s)[i] == (Card {
                suit: s[i].suit,
                rank: s[i].rank,
            }),
{
}

/// Cards convert to wire cards one for one and in order: the i-th wire card
/// has the suit and rank of the i-th card.
pub proof fn lemma_cards_to_wire(s: Seq<Card>)
    ensures
        cards_to_wire(s).len() == s.len(),
        forall|i: int|
            0 <= i < s.len() ==> #[trigger] cards_to_wire(s)[i] == (proto::Card {
                suit: s[i].suit,
                rank: s[i].rank,
            }),
{
}

/// Converts wire cards to cards, one for one and in order.
pub fn cards_from_wire_vec(cards: &Vec<proto::Card>) -> (r: Vec<Card>)
    ensures
        r@ == cards_from_wire(cards@),
{
    let mut r: Vec<Card> = Vec::new();
    let n = cards.len();
    let mut i: usize = 0;
    while i < n
        invariant
            n == cards@.len(),
            i <= n,
            r@ == cards_from_wire(cards@.subrange(0, i as int)),
        decreases n - i,
    {
        r.push(Card::from(&cards[i]));
        proof {
            assert(cards@.subrange(0, i + 1) =~= cards@.subrange(0, i as int).push(cards@[i as int]));
        }
        i = i + 1;
    }
    proof {
        assert(cards@.subrange(0, n as int) =~= cards@);
    }
    r
}

/// Converts cards to wire cards, one for one and in order.
pub fn cards_to_wire_vec(cards: Vec<Card>) -> (r: Vec<proto::Card>)
    ensures
        r@ == cards_to_wire(cards@),
{
    let mut r: Vec<proto::Card> = Vec::new();
    let n = cards.len();
    let mut i: usize = 0;
    while i < n
        invariant
            n == cards@.len(),
            i <= n,
            r@ == cards_to_wire(cards@.subrange(0, i as int)),
        decreases n - i,
    {
        r.push(proto::Card::from(cards[i]));
        proof {
            assert(cards@.subrange(0, i + 1) =~= cards@.subrange(0, i as int).push(cards@[i as int]));
        }
        i = i + 1;
    }
    proof {
        assert(cards@.subrange(0, n as int) =~= cards@);
    }
    r
}

/// The table as this client knows it, with texts and hands taken as
/// sequences.
pub struct GameStatusView {
    pub score: i32,
    pub current_cards: Seq<Card>,
    pub current_index: u32,
    pub players: Map<u32, PlayerView>,
    pub last_played: Map<u32, Seq<Card>>,
}

/// The table as this client knows it: the score, the cards on the table,
/// whose turn it is, the players by index and what each played last.
#[derive(Debug)]
pub struct GameStatus {
    pub score: i32,
    pub current_cards: Vec<Card>,
    pub current_index: u32,
    pub players: HashMap<u32, Player>,
    pub last_played: HashMap<u32, Vec<Card>>,
}

impl View for GameStatus {
    type V = GameStatusView;

    open spec fn view(&self) -> GameStatusView {
        GameStatusView {
            score: self.score,
            current_cards: self.current_cards@,
            current_index: self.current_index,
            players: self.players@.map_values(|p: Player| p@),
            last_played: self.last_played@.map_values(|v: Vec<Card>| v@),
        }
    }
}

/// Every play of the sequence names its player.
pub open spec fn plays_name_players(plays: Seq<proto::PlayCards>) -> bool {
    forall|i: int| 0 <= i < plays.len() ==> (#[trigger] plays[i]).player is Some
}

/// A table update that names whose turn it is and who made each play.
pub open spec fn continue_complete(cont: proto::Continue) -> bool {
    &&& cont.current_player is Some
    &&& plays_name_players(cont.players@)
}

/// The players after the plays are taken in order: each play seats its
/// player at the player's index.
pub open spec fn seated_after(m: Map<u32, PlayerView>, plays: Seq<proto::PlayCards>) -> Map<
    u32,
    PlayerView,
>
    decreases plays.len(),
{
    if plays.len() == 0 {
        m
    } else {
        let p = plays.last().player->0;
        seated_after(m, plays.drop_last()).insert(p.index, player_from_wire(p))
    }
}

/// The last plays after the plays are taken in order: each play is recorded
/// at its player's index.
pub open spec fn played_after(m: Map<u32, Seq<Card>>, plays: Seq<proto::PlayCards>) -> Map<
    u32,
    Seq<Card>,
>
    decreases plays.len(),
{
    if plays.len() == 0 {
        m
    } else {
        let play = plays.last();
        played_after(m, plays.drop_last()).insert(
            play.player->0.index,
            cards_from_wire(play.cards@),
        )
    }
}

/// The table after an update from the server: cards, turn and score are
/// replaced, players and last plays are updated entry by entry.
pub open spec fn status_after(v: GameStatusView, cont: proto::Continue) -> GameStatusView {
    GameStatusView {
        score: cont.score,
        current_cards: cards_from_wire(cont.current_cards@),
        current_index: cont.current_player->0.index,
        players: seated_after(v.players, cont.players@),
        last_played: played_after(v.last_played, cont.players@),
    }
}

/// Taking in the plays one after another gives the players there were,
/// overridden by those that the plays seat.
proof fn lemma_seated_after_union(m: Map<u32, PlayerView>, plays: Seq<proto::PlayCards>)
    ensures
        seated_after(m, plays) == m.union_prefer_right(seated_after(Map::empty(), plays)),
    decreases plays.len(),
{
    if plays.len() == 0 {
        assert(m.union_prefer_right(Map::empty()) =~= m);
    } else {
        lemma_seated_after_union(m, plays.drop_last());
        let p = plays.last().player->0;
        assert(seated_after(m, plays) =~= m.union_prefer_right(seated_after(Map::empty(), plays)));
    }
}

/// Taking in the plays one after another gives the last plays there were,
/// overridden by those of the plays.
proof fn lemma_played_after_union(m: Map<u32, Seq<Card>>, plays: Seq<proto::PlayCards>)
    ensures
        played_after(m, plays) == m.union_prefer_right(played_after(Map::empty(), plays)),
    decreases plays.len(),
{
    if plays.len() == 0 {
        assert(m.union_prefer_right(Map::empty()) =~= m);
    } else {
        lemma_played_after_union(m, plays.drop_last());
        assert(played_after(m, plays) =~= m.union_prefer_right(played_after(Map::empty(), plays)));
    }
}

/// After an update the table holds every player it held before, and each
/// player of the update at the player's index; the same for last plays.
pub proof fn lemma_update_keeps_other_players(v: GameStatusView, cont: proto::Continue)
    ensures
        status_after(v, cont).players == v.players.union_prefer_right(
            seated_after(Map::empty(), cont.players@),
        ),
        status_after(v, cont).last_played == v.last_played.union_prefer_right(
            played_after(Map::empty(), cont.players@),
        ),
{
    lemma_seated_after_union(v.players, cont.players@);
    lemma_played_after_union(v.last_played, cont.players@);
}

/// The plays recorded for an index are those of the last play at that
/// index: if no later play has the same player index as play `j`, then
/// after the plays the index holds play `j`'s cards and player.
proof fn lemma_last_play_wins(
    mp: Map<u32, PlayerView>,
    ml: Map<u32, Seq<Card>>,
    plays: Seq<proto::PlayCards>,
    j: int,
)
    requires
        0 <= j < plays.len(),
        forall|k: int|
            j < k < plays.len() ==> (#[trigger] plays[k]).player->0.index
                != plays[j].player->0.index,
    ensures
        seated_after(mp, plays).contains_key(plays[j].player->0.index),
        seated_after(mp, plays)[plays[j].player->0.index] == player_from_wire(plays[j].player->0),
        played_after(ml, plays).contains_key(plays[j].player->0.index),
        played_after(ml, plays)[plays[j].player->0.index] == cards_from_wire(plays[j].cards@),
    decreases plays.len(),
{
    if j < plays.len() - 1 {
        let rest = plays.drop_last();
        assert forall|k: int| j < k < rest.len() implies (#[trigger] rest[k]).player->0.index
            != rest[j].player->0.index by {
            assert(rest[k] == plays[k]);
        }
        lemma_last_play_wins(mp, ml, rest, j);
        assert(plays.last() == plays[plays.len() - 1]);
        assert(rest[j] == plays[j]);
    }
}

/// An index that no play names keeps what it held.
proof fn lemma_unnamed_index_kept(
    mp: Map<u32, PlayerView>,
    ml: Map<u32, Seq<Card>>,
    plays: Seq<proto::PlayCards>,
    idx: u32,
)
    requires
        forall|k: int| 0 <= k < plays.len() ==> (#[trigger] plays[k]).player->0.index != idx,
    ensures
        seated_after(mp, plays).contains_key(idx) == mp.contains_key(idx),
        mp.contains_key(idx) ==> seated_after(mp, plays)[idx] == mp[idx],
        played_after(ml, plays).contains_key(idx) == ml.contains_key(idx),
        ml.contains_key(idx) ==> played_after(ml, plays)[idx] == ml[idx],
    decreases plays.len(),
{
    if plays.len() > 0 {
        let rest = plays.drop_last();
        assert forall|k: int| 0 <= k < rest.len() implies (#[trigger] rest[k]).player->0.index
            != idx by {
            assert(rest[k] == plays[k]);
        }
        lemma_unnamed_index_kept(mp, ml, rest, idx);
        assert(plays.last() == plays[plays.len() - 1]);
    }
}

/// After an update, the player index of a play that no later play names
/// holds that play's player (name, score, card count and index, with no
/// id) and that play's cards, converted one for one and in order.
pub proof fn lemma_update_records_play(v: GameStatusView, cont: proto::Continue, j: int)
    requires
        0 <= j < cont.players@.len(),
        forall|k: int|
            j < k < cont.players@.len() ==> (#[trigger] cont.players@[k]).player->0.index
                != cont.players@[j].player->0.index,
    ensures
        ({
            let play = cont.players@[j];
            let wp = play.player->0;
            let r = status_after(v, cont);
            &&& r.players.contains_key(wp.index)
            &&& r.players[wp.index].name == wp.name@
            &&& r.players[wp.index].score == wp.score
            &&& r.players[wp.index].card_num == wp.card_num
            &&& r.players[wp.index].index == wp.index
            &&& r.players[wp.index].id == Seq::<char>::empty()
            &&& r.last_played.contains_key(wp.index)
            &&& r.last_played[wp.index].len() == play.cards@.len()
            &&& forall|i: int|
                0 <= i < play.cards@.len() ==> #[trigger] r.last_played[wp.index][i] == (Card {
                    suit: play.cards@[i].suit,
                    rank: play.cards@[i].rank,
                })
        }),
{
    lemma_last_play_wins(v.players, v.last_played, cont.players@, j);
    lemma_cards_from_wire(cont.players@[j].cards@);
}

/// After an update, an index that no play names keeps its player and its
/// last play.
pub proof fn lemma_update_keeps_unnamed(v: GameStatusView, cont: proto::Continue, idx: u32)
    requires
        forall|k: int|
            0 <= k < cont.players@.len() ==> (#[trigger] cont.players@[k]).player->0.index != idx,
    ensures
        status_after(v, cont).players.contains_key(idx) == v.players.contains_key(idx),
        v.players.contains_key(idx) ==> status_after(v, cont).players[idx] == v.players[idx],
        status_after(v, cont).last_played.contains_key(idx) == v.last_played.contains_key(idx),
        v.last_played.contains_key(idx) ==> status_after(v, cont).last_played[idx]
            == v.last_played[idx],
{
    lemma_unnamed_index_kept(v.players, v.last_played, cont.players@, idx);
}

/// After an update the cards on the table are those of the update, one for
/// one and in order, the score is the update's and the turn is that of the
/// update's current player.
pub proof fn lemma_update_sets_table(v: GameStatusView, cont: proto::Continue)
    ensures
        status_after(v, cont).score == cont.score,
        status_after(v, cont).current_index == cont.current_player->0.index,
        status_after(v, cont).current_cards.len() == cont.current_cards@.len(),
        forall|i: int|
            0 <= i < cont.current_cards@.len() ==> #[trigger] status_after(v, cont).current_cards[i]
                == (Card { suit: cont.current_cards@[i].suit, rank: cont.current_cards@[i].rank }),
{
    lemma_cards_from_wire(cont.current_cards@);
}

/// Taking in the same update twice leaves the table as taking it in once.
pub proof fn lemma_update_idempotent(v: GameStatusView, cont: proto::Continue)
    ensures
        status_after(status_after(v, cont), cont) == status_after(v, cont),
{
    let once = status_after(v, cont);
    lemma_update_keeps_other_players(v, cont);
    lemma_update_keeps_other_players(once, cont);
    let sp = seated_after(Map::empty(), cont.players@);
    let pp = played_after(Map::empty(), cont.players@);
    assert(v.players.union_prefer_right(sp).union_prefer_right(sp) =~= v.players.union_prefer_right(
        sp,
    ));
    assert(v.last_played.union_prefer_right(pp).union_prefer_right(pp)
        =~= v.last_played.union_prefer_right(pp));
}

impl GameStatus {
    /// An empty table: no score, no cards, no players.
    pub fn new() -> (r: Self)
        ensures
            r@ == (GameStatusView {
                score: 0,
                current_cards: Seq::<Card>::empty(),
                current_index: 0,
                players: Map::<u32, PlayerView>::empty(),
                last_played: Map::<u32, Seq<Card>>::empty(),
            }),
    {
        let r = Self {
            score: 0,
            current_cards: Vec::new(),
            current_index: 0,
            players: HashMap::new(),
            last_played: HashMap::new(),
        };
        proof {
            assert(r@.players =~= Map::<u32, PlayerView>::empty());
            assert(r@.last_played =~= Map::<u32, Seq<Card>>::empty());
        }
        r
    }

    /// Takes in a table update from the server.
    pub fn update(&mut self, cont: proto::Continue)
        requires
            continue_complete(cont),
        ensures
            final(self)@ == status_after(old(self)@, cont),
    {
        self.current_cards = cards_from_wire_vec(&cont.current_cards);
        self.current_index = match &cont.current_player {
            Some(p) => p.index,
            None => {
                proof {
                    assert(false);
                }
                0
            },
        };
        self.score = cont.score;
        let n = cont.players.len();
        let mut i: usize = 0;
        while i < n
            invariant
                n == cont.players@.len(),
                i <= n,
                continue_complete(cont),
                self@.score == cont.score,
                self@.current_cards == cards_from_wire(cont.current_cards@),
                self@.current_index == cont.current_player->0.index,
                self@.players == seated_after(old(self)@.players, cont.players@.subrange(0, i as int)),
                self@.last_played == played_after(
                    old(self)@.last_played,
                    cont.players@.subrange(0, i as int),
                ),
            decreases n - i,
        {
            let play = &cont.players[i];
            proof {
                assert(plays_name_players(cont.players@));
                assert(cont.players@[i as int].player is Some);
            }
            match &play.player {
                Some(wire_player) => {
                    let index = wire_player.index;
                    let ghost seated = self.players@;
                    let ghost played = self.last_played@;
                    let player = Player::from_wire(wire_player);
                    let ghost pv = player@;
                    self.players.insert(index, player);
                    let cards = cards_from_wire_vec(&play.cards);
                    let ghost cv = cards@;
                    self.last_played.insert(index, cards);
                    proof {
                        let pre = cont.players@.subrange(0, i as int);
                        let next = cont.players@.subrange(0, i + 1);
                        assert(next.drop_last() =~= pre);
                        assert(next.last() == *play);
                        assert(self.players@.map_values(|p: Player| p@) =~= seated.map_values(
                            |p: Player| p@,
                        ).insert(index, pv));
                        assert(self.last_played@.map_values(|v: Vec<Card>| v@)
                            =~= played.map_values(|v: Vec<Card>| v@).insert(index, cv));
                    }
                },
                None => {
                    proof {
                        assert(false);
                    }
                },
            }
            i = i + 1;
        }
        proof {
            assert(cont.players@.subrange(0, n as int) =~= cont.players@);
        }
    }
}

/// What became of a message from the server.
#[derive(Debug)]
pub enum ResponseOutcome {
    /// The hand and the table were updated.
    Updated,
    /// The server refused the last move, for this reason.
    Failed(String),
    /// The game is over.
    Ended,
}

/// A message from the server that can be taken in: it has content, and a
/// table update in it is complete.
pub open spec fn response_applicable(response: proto::StreamResponse) -> bool {
    &&& response.response is Some
    &&& (response.response->0 matches proto::Response::Continue(cont) ==> continue_complete(cont))
}

/// Takes in one message from the server: a table update replaces the hand
/// (kept in order) and updates the table; a refusal or the end of the game
/// changes nothing and is handed back.
pub fn apply_response(
    client: &mut Client,
    status: &mut GameStatus,
    response: proto::StreamResponse,
) -> (r: ResponseOutcome)
    requires
        response_applicable(response),
    ensures
        final(client).id == old(client).id,
        final(client).name == old(client).name,
        final(client).player == old(client).player,
        match response.response->0 {
            proto::Response::Continue(cont) => {
                &&& r is Updated
                &&& final(client).cards@ == cards_from_wire(cont.cards@).sort_by(card_order())
                &&& final(status)@ == status_after(old(status)@, cont)
            },
            proto::Response::Fail(fail) => {
                &&& r matches ResponseOutcome::Failed(reason) && reason@ == fail.reason@
                &&& final(client).cards == old(client).cards
                &&& *final(status) == *old(status)
            },
            proto::Response::End(_) => {
                &&& r is Ended
                &&& final(client).cards == old(client).cards
                &&& *final(status) == *old(status)
            },
        },
{
    match response.response {
        Some(proto::Response::Continue(cont)) => {
            client.modify_cards(cards_from_wire_vec(&cont.cards));
            status.update(cont);
            ResponseOutcome::Updated
        },
        Some(proto::Response::Fail(fail)) => ResponseOutcome::Failed(fail.reason),
        Some(proto::Response::End(_)) => ResponseOutcome::Ended,
        None => {
            proof {
                assert(false);
            }
            ResponseOutcome::Ended
        },
    }
}

/// The request to play `cards` in the name of `player`.
pub fn play_cards_request(player: &Player, cards: Vec<Card>) -> (r: proto::StreamRequest)
    ensures
        r.request matches Some(proto::Request::PlayCards(play)) && play.cards@ == cards_to_wire(
            cards@,
        ) && play.player == Some(player_to_wire(*player)),
        r.request matches Some(proto::Request::PlayCards(play)) && play.cards@.len() == cards@.len()
            && forall|i: int|
            0 <= i < cards@.len() ==> #[trigger] play.cards@[i] == (proto::Card {
                suit: cards@[i].suit,
                rank: cards@[i].rank,
            }),
{
    proof {
        lemma_cards_to_wire(cards@);
    }
    proto::StreamRequest {
        request: Some(
            proto::Request::PlayCards(
                proto::PlayCards {
                    cards: cards_to_wire_vec(cards),
                    player: Some(proto::Player::from(player)),
                },
            ),
        ),
    }
}

/// The request to pass in the name of `player`.
pub fn pass_request(player: &Player) -> (r: proto::StreamRequest)
    ensures
        r.request matches Some(proto::Request::Pass(pass)) && pass.player == Some(
            player_to_wire(*player),
        ),
{
    proto::StreamRequest {
        request: Some(proto::Request::Pass(proto::Pass { player: Some(proto::Player::from(player)) })),
    }
}

/// The request that opens the game stream for `player`: a play of no cards.
pub fn join_request(player: &Player) -> (r: proto::StreamRequest)
    ensures
        r.request matches Some(proto::Request::PlayCards(play)) && play.cards@.len() == 0
            && play.player == Some(player_to_wire(*player)),
{
    play_cards_request(player, Vec::new())
}

/// The first message on a new connection to the server: a play of the card
/// of suit 1 and rank 1 by a player with the given id and name, no score,
/// no cards and index 0.
pub fn opening_request(id: &String, name: &String) -> (r: proto::StreamRequest)
    ensures
        r.request matches Some(proto::Request::PlayCards(play)) && play.cards@ == seq![
            proto::Card { suit: 1, rank: 1 },
        ] && play.player == Some(
            proto::Player { id: *id, name: *name, score: 0, card_num: 0, index: 0 },
        ),
{
    proto::StreamRequest {
        request: Some(
            proto::Request::PlayCards(
                proto::PlayCards {
                    player: Some(
                        proto::Player {
                            id: id.clone(),
                            name: name.clone(),
                            score: 0,
                            card_num: 0,
                            index: 0,
                        },
                    ),
                    cards: vec![proto::Card { suit: 1, rank: 1 }],
                },
            ),
        ),
    }
}

impl Default for GameStatus {
    fn default() -> (r: Self)
        ensures
            r@ == (GameStatusView {
                score: 0,
                current_cards: Seq::<Card>::empty(),
                current_index: 0,
                players: Map::<u32, PlayerView>::empty(),
                last_played: Map::<u32, Seq<Card>>::empty(),
            }),
    {
        GameStatus::new()
    }
}

} // verus!
