use simple_ljt_client::card::{rank_to_string, show_cards, suit_to_string, Card};
use simple_ljt_client::proto;

fn c(suit: i32, rank: i32) -> Card {
    Card { suit, rank }
}

#[test]
fn sort_orders_by_rank_then_suit() {
    let mut cards = vec![c(2, 5), c(1, 12), c(0, 5), c(3, 1), c(1, 5)];
    Card::sort_cards(&mut cards);
    assert_eq!(cards, vec![c(3, 1), c(0, 5), c(1, 5), c(2, 5), c(1, 12)]);
}

#[test]
fn sort_empty_and_single() {
    let mut empty: Vec<Card> = vec![];
    Card::sort_cards(&mut empty);
    assert!(empty.is_empty());
    let mut one = vec![c(2, 7)];
    Card::sort_cards(&mut one);
    assert_eq!(one, vec![c(2, 7)]);
}

#[test]
fn sort_keeps_duplicates() {
    let mut cards = vec![c(1, 3), c(0, 9), c(1, 3), c(0, 2)];
    Card::sort_cards(&mut cards);
    assert_eq!(cards, vec![c(0, 2), c(1, 3), c(1, 3), c(0, 9)]);
}

#[test]
fn sort_twice_is_sort_once() {
    let mut once = vec![c(3, 14), c(0, 15), c(2, 1), c(2, 13), c(1, 1)];
    Card::sort_cards(&mut once);
    let mut twice = once.clone();
    Card::sort_cards(&mut twice);
    assert_eq!(once, twice);
}

#[test]
fn sort_depends_only_on_the_cards() {
    let mut a = vec![c(0, 4), c(3, 4), c(1, 9)];
    let mut b = vec![c(1, 9), c(0, 4), c(3, 4)];
    Card::sort_cards(&mut a);
    Card::sort_cards(&mut b);
    assert_eq!(a, b);
}

#[test]
fn rank_texts() {
    let expected = [
        "3", "4", "5", "6", "7", "8", "9", "10", "J", "Q", "K", "A", "2", "\u{1F0CF}0",
        "\u{1F0CF}1",
    ];
    for (i, e) in expected.iter().enumerate() {
        assert_eq!(rank_to_string(i as i32 + 1), *e);
    }
}

#[test]
fn rank_texts_distinct() {
    let texts: Vec<String> = (1..=15).map(rank_to_string).collect();
    for i in 0..texts.len() {
        for j in 0..texts.len() {
            if i != j {
                assert_ne!(texts[i], texts[j]);
            }
        }
    }
}

#[test]
fn suit_texts() {
    assert_eq!(suit_to_string(0), "\u{2660}");
    assert_eq!(suit_to_string(1), "\u{2665}");
    assert_eq!(suit_to_string(2), "\u{2663}");
    assert_eq!(suit_to_string(3), "\u{2666}");
    assert_eq!(suit_to_string(4), "");
    assert_eq!(suit_to_string(-1), "");
}

#[test]
fn card_text_is_suit_then_rank() {
    assert_eq!(c(1, 8).to_string(), "\u{2665}10");
    assert_eq!(c(0, 9).to_string(), "\u{2660}J");
    assert_eq!(c(3, 15).to_string(), "\u{2666}\u{1F0CF}1");
    assert_eq!(c(7, 2).to_string(), "4");
}

#[test]
fn show_cards_joins_with_spaces() {
    assert_eq!(show_cards(&[]), "");
    assert_eq!(show_cards(&[c(2, 13)]), "\u{2663}2");
    assert_eq!(
        show_cards(&[c(0, 1), c(1, 12), c(3, 14)]),
        "\u{2660}3 \u{2665}A \u{2666}\u{1F0CF}0"
    );
}

#[test]
fn from_str_reads_codes() {
    assert_eq!(Card::from_str("1K"), Ok(c(1, 11)));
    assert_eq!(Card::from_str("0J"), Ok(c(0, 9)));
    assert_eq!(Card::from_str("3Q"), Ok(c(3, 10)));
    assert_eq!(Card::from_str("2A"), Ok(c(2, 12)));
    assert_eq!(Card::from_str("02"), Ok(c(0, 13)));
    assert_eq!(Card::from_str("30"), Ok(c(3, 14)));
    assert_eq!(Card::from_str("31"), Ok(c(3, 15)));
    assert_eq!(Card::from_str("13"), Ok(c(1, 1)));
    assert_eq!(Card::from_str("29"), Ok(c(2, 7)));
    assert_eq!(Card::from_str("35 and more"), Ok(c(3, 3)));
}

#[test]
fn from_str_errors() {
    assert_eq!(Card::from_str(""), Err(()));
    assert_eq!(Card::from_str("4K"), Err(()));
    assert_eq!(Card::from_str("xK"), Err(()));
    assert_eq!(Card::from_str("1"), Err(()));
    // A bad suit is refused before the rank is looked at.
    assert_eq!(Card::from_str("9z"), Err(()));
}

#[test]
fn wire_conversions() {
    let w = proto::Card { suit: 2, rank: 11 };
    let card = Card::from(&w);
    assert_eq!(card, c(2, 11));
    let back: proto::Card = card.into();
    assert_eq!(back, w);
}
