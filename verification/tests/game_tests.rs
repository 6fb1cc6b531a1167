use std::collections::HashSet;

use simple_ljt_client::card::Card;
use simple_ljt_client::game::{
    apply_response, join_request, opening_request, pass_request, play_cards_request, GameStatus,
    ResponseOutcome,
};
use simple_ljt_client::player::{Client, Player};
use simple_ljt_client::proto;
use simple_ljt_client::ui::card_cells;
use simple_ljt_client::ui::loginui::{LoginForm, LoginKey, LoginStep};

fn wc(suit: i32, rank: i32) -> proto::Card {
    proto::Card { suit, rank }
}

fn wp(name: &str, index: u32, score: i32) -> proto::Player {
    proto::Player {
        name: name.to_string(),
        score,
        card_num: 5,
        index,
        id: format!("id-{}", name),
    }
}

fn sample_continue() -> proto::Continue {
    proto::Continue {
        current_cards: vec![wc(1, 3), wc(2, 3)],
        current_player: Some(wp("bob", 1, 7)),
        score: 15,
        players: vec![
            proto::PlayCards { cards: vec![wc(0, 1)], player: Some(wp("ann", 0, 2)) },
            proto::PlayCards { cards: vec![], player: Some(wp("bob", 1, 7)) },
        ],
        cards: vec![wc(3, 12), wc(0, 2), wc(1, 2)],
    }
}

#[test]
fn client_new_starts_empty() {
    let client = Client::new("abc".to_string(), "zoe".to_string());
    assert_eq!(client.id, "abc");
    assert_eq!(client.name, "zoe");
    assert!(client.cards.is_empty());
    assert_eq!(client.player.name, "zoe");
    assert_eq!(client.player.id, "abc");
    assert_eq!(client.player.score, 0);
    assert_eq!(client.player.card_num, 0);
    assert_eq!(client.player.index, 0);
}

#[test]
fn modify_cards_keeps_hand_in_order() {
    let mut client = Client::new("i".to_string(), "n".to_string());
    client.modify_cards(vec![
        Card { suit: 2, rank: 9 },
        Card { suit: 0, rank: 1 },
        Card { suit: 1, rank: 9 },
    ]);
    assert_eq!(
        client.cards,
        vec![Card { suit: 0, rank: 1 }, Card { suit: 1, rank: 9 }, Card { suit: 2, rank: 9 }]
    );
    assert_eq!(client.show_cards(), "\u{2660}3 \u{2665}J \u{2663}J");
}

#[test]
fn game_status_new_is_empty() {
    let s = GameStatus::new();
    assert_eq!(s.score, 0);
    assert!(s.current_cards.is_empty());
    assert_eq!(s.current_index, 0);
    assert!(s.players.is_empty());
    assert!(s.last_played.is_empty());
    let d = GameStatus::default();
    assert!(d.players.is_empty() && d.score == 0);
}

#[test]
fn update_takes_in_the_table() {
    let mut s = GameStatus::new();
    s.update(sample_continue());
    assert_eq!(s.score, 15);
    assert_eq!(s.current_index, 1);
    assert_eq!(s.current_cards, vec![Card { suit: 1, rank: 3 }, Card { suit: 2, rank: 3 }]);
    assert_eq!(s.players.len(), 2);
    let ann = &s.players[&0];
    assert_eq!(ann.name, "ann");
    assert_eq!(ann.score, 2);
    assert_eq!(ann.card_num, 5);
    assert_eq!(ann.index, 0);
    assert_eq!(ann.id, "");
    assert_eq!(s.last_played[&0], vec![Card { suit: 0, rank: 1 }]);
    assert!(s.last_played[&1].is_empty());
}

#[test]
fn update_keeps_other_players_and_is_idempotent() {
    let mut s = GameStatus::new();
    s.players.insert(
        9,
        Player { name: "old".to_string(), score: 1, card_num: 1, index: 9, id: String::new() },
    );
    s.last_played.insert(9, vec![Card { suit: 3, rank: 3 }]);
    s.update(sample_continue());
    assert_eq!(s.players.len(), 3);
    assert_eq!(s.players[&9].name, "old");
    assert_eq!(s.last_played[&9], vec![Card { suit: 3, rank: 3 }]);
    s.update(sample_continue());
    assert_eq!(s.players.len(), 3);
    assert_eq!(s.players[&1].name, "bob");
    assert_eq!(s.score, 15);
}

#[test]
fn later_play_of_same_index_wins() {
    let mut cont = sample_continue();
    cont.players.push(proto::PlayCards { cards: vec![wc(2, 2)], player: Some(wp("ann2", 0, 3)) });
    let mut s = GameStatus::new();
    s.update(cont);
    assert_eq!(s.players[&0].name, "ann2");
    assert_eq!(s.last_played[&0], vec![Card { suit: 2, rank: 2 }]);
}

#[test]
fn response_continue_updates_hand_and_table() {
    let mut client = Client::new("i".to_string(), "n".to_string());
    let mut s = GameStatus::new();
    let r = apply_response(
        &mut client,
        &mut s,
        proto::StreamResponse { response: Some(proto::Response::Continue(sample_continue())) },
    );
    assert!(matches!(r, ResponseOutcome::Updated));
    assert_eq!(
        client.cards,
        vec![Card { suit: 0, rank: 2 }, Card { suit: 1, rank: 2 }, Card { suit: 3, rank: 12 }]
    );
    assert_eq!(s.score, 15);
}

#[test]
fn response_fail_and_end_change_nothing() {
    let mut client = Client::new("i".to_string(), "n".to_string());
    let mut s = GameStatus::new();
    let r = apply_response(
        &mut client,
        &mut s,
        proto::StreamResponse {
            response: Some(proto::Response::Fail(proto::Fail { reason: "not your turn".to_string() })),
        },
    );
    match r {
        ResponseOutcome::Failed(reason) => assert_eq!(reason, "not your turn"),
        _ => panic!("expected a failure"),
    }
    assert!(client.cards.is_empty() && s.players.is_empty());
    let r = apply_response(
        &mut client,
        &mut s,
        proto::StreamResponse { response: Some(proto::Response::End(proto::End {})) },
    );
    assert!(matches!(r, ResponseOutcome::Ended));
    assert!(client.cards.is_empty() && s.score == 0);
}

#[test]
fn requests_carry_the_player() {
    let client = Client::new("id1".to_string(), "amy".to_string());
    let r = play_cards_request(&client.player, vec![Card { suit: 1, rank: 4 }]);
    match r.request {
        Some(proto::Request::PlayCards(play)) => {
            assert_eq!(play.cards, vec![wc(1, 4)]);
            let p = play.player.unwrap();
            assert_eq!(p.name, "amy");
            assert_eq!(p.id, "id1");
        }
        _ => panic!("expected a play"),
    }
    match pass_request(&client.player).request {
        Some(proto::Request::Pass(pass)) => assert_eq!(pass.player.unwrap().id, "id1"),
        _ => panic!("expected a pass"),
    }
    match join_request(&client.player).request {
        Some(proto::Request::PlayCards(play)) => {
            assert!(play.cards.is_empty());
            assert_eq!(play.player.unwrap().name, "amy");
        }
        _ => panic!("expected a play"),
    }
}

#[test]
fn opening_request_plays_suit_one_rank_one() {
    let r = opening_request(&"u-1".to_string(), &"max".to_string());
    match r.request {
        Some(proto::Request::PlayCards(play)) => {
            assert_eq!(play.cards, vec![wc(1, 1)]);
            let p = play.player.unwrap();
            assert_eq!((p.id.as_str(), p.name.as_str(), p.score, p.card_num, p.index), ("u-1", "max", 0, 0, 0));
        }
        _ => panic!("expected a play"),
    }
}

#[test]
fn player_from_wire_drops_id() {
    let p = Player::from_wire(&wp("kim", 3, 4));
    assert_eq!(p.name, "kim");
    assert_eq!(p.id, "");
    assert_eq!((p.score, p.card_num, p.index), (4, 5, 3));
    let w = proto::Player::from(&p);
    assert_eq!(w.name, "kim");
    assert_eq!(w.index, 3);
}

#[test]
fn card_cells_mark_selection_and_cursor() {
    let cards = [Card { suit: 0, rank: 1 }, Card { suit: 1, rank: 9 }, Card { suit: 2, rank: 14 }];
    let mut selected = HashSet::new();
    selected.insert(2usize);
    let cells = card_cells(&cards, &selected, 1);
    assert_eq!(cells.len(), 3);
    assert_eq!(cells[0].text, "\u{2660}3");
    assert_eq!(cells[2].text, "\u{2663}\u{1F0CF}0");
    assert!(!cells[0].selected && !cells[1].selected && cells[2].selected);
    assert!(!cells[0].underlined && cells[1].underlined && !cells[2].underlined);
}

#[test]
fn login_form_edits_name() {
    let mut form = LoginForm::new();
    assert!(matches!(form.handle_key(LoginKey::Char('a')), LoginStep::Editing));
    form.handle_key(LoginKey::Char('b'));
    form.handle_key(LoginKey::Other);
    assert_eq!(form.name, "ab");
    form.handle_key(LoginKey::Backspace);
    assert_eq!(form.name, "a");
    form.handle_key(LoginKey::Backspace);
    form.handle_key(LoginKey::Backspace);
    assert_eq!(form.name, "");
    form.handle_key(LoginKey::Char('z'));
    match form.handle_key(LoginKey::Enter) {
        LoginStep::Confirmed(name) => assert_eq!(name, "z"),
        _ => panic!("expected a name"),
    }
    assert!(matches!(form.handle_key(LoginKey::Esc), LoginStep::Cancelled));
}

#[test]
fn login_name_stops_growing() {
    let mut form = LoginForm::new();
    for _ in 0..30 {
        form.handle_key(LoginKey::Char('x'));
    }
    // A character is still added at 20 bytes, none after 21.
    assert_eq!(form.name.len(), 21);
    let mut wide = LoginForm::new();
    for _ in 0..30 {
        wide.handle_key(LoginKey::Char('\u{1F0CF}'));
    }
    // 4-byte characters: 20 bytes take a sixth one, 24 bytes none.
    assert_eq!(wide.name.len(), 24);
}

#[test]
fn backspace_undoes_a_typed_char() {
    let mut form = LoginForm::new();
    form.handle_key(LoginKey::Char('q'));
    form.handle_key(LoginKey::Char('\u{e9}'));
    form.handle_key(LoginKey::Backspace);
    assert_eq!(form.name, "q");
}
