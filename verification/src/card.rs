use vstd::prelude::*;
use vstd::relations::{sorted_by, total_ordering};

use crate::proto;

verus! {

broadcast use vstd::seq_lib::group_to_multiset_ensures;

/// A playing card: a suit (0 to 3) and a rank (1 to 15, where 9 to 13 are
/// J, Q, K, A, 2 and 14, 15 are the two jokers).
#[derive(Debug, Clone, Copy, PartialEq, Eq, Structural)]
pub struct Card {
    pub suit: i32,
    pub rank: i32,
}

/// The order in which a hand is kept: by rank, and by suit among equal ranks.
pub open spec fn card_le(a: Card, b: Card) -> bool {
    a.rank < b.rank || (a.rank == b.rank && a.suit <= b.suit)
}

/// `card_le` as a relation, in the form vstd's sorting specifications take.
pub open spec fn card_order() -> spec_fn(Card, Card) -> bool {
    |a: Card, b: Card| card_le(a, b)
}

/// The hand order is a total order on cards.
pub proof fn lemma_card_order_total()
    ensures
        total_ordering(card_order()),
{
    let leq = card_order();
    assert forall|x: Card, y: Card| #[trigger] leq(x, y) && #[trigger] leq(y, x) implies x == y by {
        assert(x.rank == y.rank && x.suit == y.suit);
    }
}

/// Two sequences sorted by the same total order that hold the same cards
/// are the same sequence.
proof fn lemma_sorted_unique<A>(s: Seq<A>, t: Seq<A>, leq: spec_fn(A, A) -> bool)
    requires
        total_ordering(leq),
        sorted_by(s, leq),
        sorted_by(t, leq),
        s.to_multiset() == t.to_multiset(),
    ensures
        s == t,
    decreases s.len(),
{
    assert(s.len() == s.to_multiset().len());
    assert(t.len() == t.to_multiset().len());
    if s.len() > 0 {
        assert(s.contains(s[0]));
        assert(t.to_multiset().count(s[0]) > 0);
        assert(t.contains(s[0]));
        assert(s.to_multiset().count(t[0]) > 0);
        assert(s.contains(t[0]));
        let i = choose|i: int| 0 <= i < t.len() && t[i] == s[0];
        let j = choose|j: int| 0 <= j < s.len() && s[j] == t[0];
        assert(leq(t[0], t[i])) by {
            if i > 0 {
                assert(leq(t[0], t[i]));
            }
        }
        assert(leq(s[0], s[j])) by {
            if j > 0 {
                assert(leq(s[0], s[j]));
            }
        }
        assert(s[0] == t[0]);
        let s1 = s.remove(0);
        let t1 = t.remove(0);
        assert(s1.to_multiset() == s.to_multiset().remove(s[0]));
        assert(t1.to_multiset() == t.to_multiset().remove(t[0]));
        assert(sorted_by(s1, leq)) by {
            assert forall|a: int, b: int| 0 <= a < b < s1.len() implies #[trigger] leq(s1[a], s1[b]) by {
                assert(s1[a] == s[a + 1] && s1[b] == s[b + 1]);
            }
        }
        assert(sorted_by(t1, leq)) by {
            assert forall|a: int, b: int| 0 <= a < b < t1.len() implies #[trigger] leq(t1[a], t1[b]) by {
                assert(t1[a] == t[a + 1] && t1[b] == t[b + 1]);
            }
        }
        lemma_sorted_unique(s1, t1, leq);
        assert(s =~= seq![s[0]] + s1);
        assert(t =~= seq![t[0]] + t1);
    }
}

/// A sequence of cards that is in hand order and holds the same cards as
/// `s` is exactly `s` sorted.
proof fn lemma_is_sorted_form(s: Seq<Card>, r: Seq<Card>)
    requires
        sorted_by(r, card_order()),
        r.to_multiset() == s.to_multiset(),
    ensures
        r == s.sort_by(card_order()),
{
    lemma_card_order_total();
    s.lemma_sort_by_ensures(card_order());
    lemma_sorted_unique(r, s.sort_by(card_order()), card_order());
}

/// Ranks come first in the hand order: a card of lower rank goes before a
/// card of higher rank, whatever their suits.
pub proof fn lemma_lower_rank_first(a: Card, b: Card)
    requires
        a.rank < b.rank,
    ensures
        card_order()(a, b),
        !card_order()(b, a),
{
}

/// Among cards of equal rank the lower suit goes first.
pub proof fn lemma_equal_rank_by_suit(a: Card, b: Card)
    requires
        a.rank == b.rank,
        a.suit < b.suit,
    ensures
        card_order()(a, b),
        !card_order()(b, a),
{
}

/// In a hand sorted in the hand order, ranks never go down, and among
/// equal ranks suits never go down.
pub proof fn lemma_sorted_hand_in_order(s: Seq<Card>)
    requires
        sorted_by(s, card_order()),
    ensures
        forall|i: int, j: int|
            0 <= i < j < s.len() ==> s[i].rank < s[j].rank || (s[i].rank == s[j].rank && s[i].suit
                <= s[j].suit),
{
    assert forall|i: int, j: int| 0 <= i < j < s.len() implies s[i].rank < s[j].rank || (s[i].rank
        == s[j].rank && s[i].suit <= s[j].suit) by {
        assert(card_order()(s[i], s[j]));
    }
}

/// The sorted form of any hand has ranks that never go down, and suits
/// that never go down among equal ranks.
pub proof fn lemma_sort_ascends(s: Seq<Card>)
    ensures
        s.sort_by(card_order()).len() == s.len(),
        forall|i: int, j: int|
            #![trigger s.sort_by(card_order())[i], s.sort_by(card_order())[j]]
            0 <= i < j < s.len() ==> s.sort_by(card_order())[i].rank < s.sort_by(
                card_order(),
            )[j].rank || (s.sort_by(card_order())[i].rank == s.sort_by(card_order())[j].rank
                && s.sort_by(card_order())[i].suit <= s.sort_by(card_order())[j].suit),
{
    lemma_card_order_total();
    s.lemma_sort_by_ensures(card_order());
    assert(s.len() == s.to_multiset().len());
    assert(s.sort_by(card_order()).len() == s.sort_by(card_order()).to_multiset().len());
    lemma_sorted_hand_in_order(s.sort_by(card_order()));
}

/// Sorting a hand that is already in order leaves it as it is.
pub proof fn lemma_sorted_hand_unchanged(s: Seq<Card>)
    requires
        sorted_by(s, card_order()),
    ensures
        s.sort_by(card_order()) == s,
{
    lemma_is_sorted_form(s, s);
}

/// Sorting twice gives what sorting once gives.
pub proof fn lemma_sort_idempotent(s: Seq<Card>)
    ensures
        s.sort_by(card_order()).sort_by(card_order()) == s.sort_by(card_order()),
{
    lemma_card_order_total();
    s.lemma_sort_by_ensures(card_order());
    lemma_sorted_hand_unchanged(s.sort_by(card_order()));
}

/// The sorted hand depends only on which cards the hand holds, not on the
/// order in which they came.
pub proof fn lemma_sort_same_cards(s: Seq<Card>, t: Seq<Card>)
    requires
        s.to_multiset() == t.to_multiset(),
    ensures
        s.sort_by(card_order()) == t.sort_by(card_order()),
{
    lemma_card_order_total();
    s.lemma_sort_by_ensures(card_order());
    lemma_is_sorted_form(t, s.sort_by(card_order()));
}

impl Card {
    /// Puts a hand in order: by rank, and by suit among cards of equal rank.
    pub fn sort_cards(cards: &mut [Card])
        ensures
            final(cards)@ == old(cards)@.sort_by(card_order()),
            sorted_by(final(cards)@, card_order()),
            final(cards)@.to_multiset() == old(cards)@.to_multiset(),
            forall|i: int, j: int|
                #![trigger final(cards)@[i], final(cards)@[j]]
                0 <= i < j < final(cards)@.len() ==> final(cards)@[i].rank < final(cards)@[j].rank
                    || (final(cards)@[i].rank == final(cards)@[j].rank && final(cards)@[i].suit
                    <= final(cards)@[j].suit),
    {
        let ghost orig = cards@;
        let n = cards.len();
        let mut i: usize = 0;
        while i < n
            invariant
                n == cards@.len(),
                i <= n,
                cards@.to_multiset() == orig.to_multiset(),
                forall|a: int, b: int| 0 <= a < b < i ==> card_le(cards@[a], cards@[b]),
            decreases n - i,
        {
            let mut j: usize = i;
            while j > 0 && (cards[j].rank < cards[j - 1].rank || (cards[j].rank == cards[j - 1].rank
                && cards[j].suit < cards[j - 1].suit))
                invariant
                    n == cards@.len(),
                    j <= i < n,
                    cards@.to_multiset() == orig.to_multiset(),
                    forall|a: int, b: int|
                        0 <= a < b <= i && a != j && b != j ==> card_le(cards@[a], cards@[b]),
                    forall|k: int| j < k <= i ==> card_le(cards@[j as int], cards@[k]),
                decreases j,
            {
                let ghost before = cards@;
                let x = cards[j - 1];
                let y = cards[j];
                cards[j - 1] = y;
                cards[j] = x;
                proof {
                    lemma_swap_multiset(before, j - 1, j as int);
                    assert(cards@ == before.update(j - 1, y).update(j as int, x));
                }
                j = j - 1;
            }
            proof {
                assert forall|a: int, b: int| 0 <= a < b <= i implies card_le(
                    cards@[a],
                    cards@[b],
                ) by {
                    if b == j && a < j - 1 {
                        assert(card_le(cards@[a], cards@[j - 1]));
                    }
                }
            }
            i = i + 1;
        }
        proof {
            assert(sorted_by(cards@, card_order()));
            lemma_is_sorted_form(orig, cards@);
            lemma_sorted_hand_in_order(cards@);
        }
    }
}

/// Exchanging two entries of a sequence keeps the multiset of its entries.
proof fn lemma_swap_multiset<A>(s: Seq<A>, i: int, j: int)
    requires
        0 <= i < j < s.len(),
    ensures
        s.update(i, s[j]).update(j, s[i]).to_multiset() == s.to_multiset(),
{
    broadcast use vstd::multiset::group_multiset_axioms;
    let t = s.update(i, s[j]).update(j, s[i]);
    // Both sequences are the same after removing positions j and i.
    let s2 = s.remove(j).remove(i);
    let t2 = t.remove(j).remove(i);
    assert(s2 =~= t2);
    assert(s.remove(j).to_multiset() == s.to_multiset().remove(s[j]));
    assert(s.remove(j)[i] == s[i]);
    assert(s2.to_multiset() == s.remove(j).to_multiset().remove(s[i]));
    assert(t.remove(j).to_multiset() == t.to_multiset().remove(t[j]));
    assert(t.remove(j)[i] == t[i]);
    assert(t2.to_multiset() == t.remove(j).to_multiset().remove(t[i]));
    assert(s.to_multiset().count(s[j]) > 0) by { assert(s.contains(s[j])); }
    assert(s.remove(j).to_multiset().count(s[i]) > 0) by { assert(s.remove(j).contains(s[i])); }
    assert(t.to_multiset().count(t[j]) > 0) by { assert(t.contains(t[j])); }
    assert(t.remove(j).to_multiset().count(t[i]) > 0) by { assert(t.remove(j).contains(t[i])); }
    assert(s.to_multiset() =~= s2.to_multiset().insert(s[i]).insert(s[j]));
    assert(t.to_multiset() =~= t2.to_multiset().insert(t[i]).insert(t[j]));
}


/// The decimal digit character for `d` (0 to 9).
pub open spec fn digit_char(d: int) -> char {
    (d + 48) as char
}

/// The decimal text of a natural number, as `to_string` writes it.
pub open spec fn decimal_text(n: nat) -> Seq<char>
    decreases n,
{
    if n < 10 {
        seq![digit_char(n as int)]
    } else {
        decimal_text(n / 10).push(digit_char((n % 10) as int))
    }
}

/// Ranks that have a name: 1 to 15.
pub open spec fn valid_rank(rank: int) -> bool {
    1 <= rank <= 15
}

/// How a rank is shown: ranks 1 to 8 are the numbers 3 to 10, then come
/// J, Q, K, A, 2 and the two jokers.
pub open spec fn rank_text(rank: int) -> Seq<char> {
    if 1 <= rank <= 8 {
        decimal_text((rank + 2) as nat)
    } else if rank == 9 {
        seq!['J']
    } else if rank == 10 {
        seq!['Q']
    } else if rank == 11 {
        seq!['K']
    } else if rank == 12 {
        seq!['A']
    } else if rank == 13 {
        seq!['2']
    } else if rank == 14 {
        seq!['\u{1F0CF}', '0']
    } else {
        seq!['\u{1F0CF}', '1']
    }
}

/// How a suit is shown: spades, hearts, clubs, diamonds; nothing for any
/// other number.
pub open spec fn suit_text(suit: int) -> Seq<char> {
    if suit == 0 {
        seq!['\u{2660}']
    } else if suit == 1 {
        seq!['\u{2665}']
    } else if suit == 2 {
        seq!['\u{2663}']
    } else if suit == 3 {
        seq!['\u{2666}']
    } else {
        seq![]
    }
}

/// How a card is shown: its suit followed by its rank.
pub open spec fn card_text(c: Card) -> Seq<char> {
    suit_text(c.suit as int) + rank_text(c.rank as int)
}

/// How a hand is shown: the cards' texts separated by single spaces.
pub open spec fn hand_text(cards: Seq<Card>) -> Seq<char>
    decreases cards.len(),
{
    if cards.len() == 0 {
        seq![]
    } else if cards.len() == 1 {
        card_text(cards[0])
    } else {
        hand_text(cards.drop_last()) + seq![' '] + card_text(cards.last())
    }
}

/// The text of an empty hand is empty, and that of a single card is the
/// card's text.
pub proof fn lemma_hand_text_short(c: Card)
    ensures
        hand_text(Seq::<Card>::empty()) == Seq::<char>::empty(),
        hand_text(seq![c]) == card_text(c),
{
}

/// Adding a card to a non-empty hand adds a space and the card's text to
/// the hand's text.
pub proof fn lemma_hand_text_push(s: Seq<Card>, c: Card)
    requires
        s.len() > 0,
    ensures
        hand_text(s.push(c)) == hand_text(s) + seq![' '] + card_text(c),
{
    assert(s.push(c).drop_last() =~= s);
}

/// The text of a hand is as long as its cards' texts together, plus one
/// space between each two cards.
pub proof fn lemma_hand_text_len(s: Seq<Card>)
    requires
        s.len() > 0,
    ensures
        hand_text(s).len() == texts_len(s) + s.len() - 1,
    decreases s.len(),
{
    if s.len() > 1 {
        lemma_hand_text_len(s.drop_last());
    } else {
        assert(s.drop_last().len() == 0);
        assert(s.last() == s[0]);
        assert(texts_len(s.drop_last()) == 0);
    }
}

/// The total length of the cards' texts.
pub open spec fn texts_len(s: Seq<Card>) -> nat
    decreases s.len(),
{
    if s.len() == 0 {
        0
    } else {
        texts_len(s.drop_last()) + card_text(s.last()).len()
    }
}

/// Every card of the hand has a rank that can be shown.
pub open spec fn all_ranks_valid(cards: Seq<Card>) -> bool {
    forall|i: int| 0 <= i < cards.len() ==> valid_rank(#[trigger] cards[i].rank as int)
}

/// The text of a rank: "3" to "10" for ranks 1 to 8, then "J", "Q", "K",
/// "A", "2", and the jokers.
pub fn rank_to_string(rank: i32) -> (s: String)
    requires
        valid_rank(rank as int),
    ensures
        s@ == rank_text(rank as int),
{
    proof {
        reveal_with_fuel(decimal_text, 2);
    }
    match rank {
        1 => {
            proof { reveal_strlit("3"); }
            "3".to_owned()
        },
        2 => {
            proof { reveal_strlit("4"); }
            "4".to_owned()
        },
        3 => {
            proof { reveal_strlit("5"); }
            "5".to_owned()
        },
        4 => {
            proof { reveal_strlit("6"); }
            "6".to_owned()
        },
        5 => {
            proof { reveal_strlit("7"); }
            "7".to_owned()
        },
        6 => {
            proof { reveal_strlit("8"); }
            "8".to_owned()
        },
        7 => {
            proof { reveal_strlit("9"); }
            "9".to_owned()
        },
        8 => {
            proof { reveal_strlit("10"); }
            "10".to_owned()
        },
        9 => {
            proof { reveal_strlit("J"); }
            "J".to_owned()
        },
        10 => {
            proof { reveal_strlit("Q"); }
            "Q".to_owned()
        },
        11 => {
            proof { reveal_strlit("K"); }
            "K".to_owned()
        },
        12 => {
            proof { reveal_strlit("A"); }
            "A".to_owned()
        },
        13 => {
            proof { reveal_strlit("2"); }
            "2".to_owned()
        },
        14 => {
            proof { reveal_strlit("\u{1F0CF}0"); }
            "\u{1F0CF}0".to_owned()
        },
        _ => {
            proof { reveal_strlit("\u{1F0CF}1"); }
            "\u{1F0CF}1".to_owned()
        },
    }
}

/// The symbol of a suit; the empty text for a number that is no suit.
pub fn suit_to_string(suit: i32) -> (s: String)
    ensures
        s@ == suit_text(suit as int),
{
    match suit {
        0 => {
            proof { reveal_strlit("\u{2660}"); }
            "\u{2660}".to_owned()
        },
        1 => {
            proof { reveal_strlit("\u{2665}"); }
            "\u{2665}".to_owned()
        },
        2 => {
            proof { reveal_strlit("\u{2663}"); }
            "\u{2663}".to_owned()
        },
        3 => {
            proof { reveal_strlit("\u{2666}"); }
            "\u{2666}".to_owned()
        },
        _ => {
            proof { reveal_strlit(""); }
            "".to_owned()
        },
    }
}

/// The suit that a code character names: '0' to '3'.
pub open spec fn suit_of_code(c: char) -> Option<i32> {
    if c == '0' {
        Some(0i32)
    } else if c == '1' {
        Some(1i32)
    } else if c == '2' {
        Some(2i32)
    } else if c == '3' {
        Some(3i32)
    } else {
        None
    }
}

/// Whether a character is a decimal digit.
pub open spec fn is_decimal_digit(c: char) -> bool {
    48 <= c as u32 <= 57
}

/// The characters that a code may name a rank with: J, Q, K, A or a digit.
pub open spec fn is_rank_code(c: char) -> bool {
    c == 'J' || c == 'Q' || c == 'K' || c == 'A' || is_decimal_digit(c)
}

/// The rank that a code character names: J, Q, K, A, '2' are 9 to 13,
/// '0' and '1' the jokers 14 and 15, and a digit '3' to '9' is the rank two
/// below it.
pub open spec fn rank_of_code(c: char) -> i32 {
    if c == 'J' {
        9
    } else if c == 'Q' {
        10
    } else if c == 'K' {
        11
    } else if c == 'A' {
        12
    } else if c == '2' {
        13
    } else if c == '0' {
        14
    } else if c == '1' {
        15
    } else {
        (c as u32 - 48 - 2) as i32
    }
}

/// What reading a card code gives: the first character is the suit, the
/// second the rank, and what follows is ignored.
pub open spec fn parse_card(s: Seq<char>) -> Result<Card, ()> {
    if s.len() == 0 || suit_of_code(s[0]) is None || s.len() < 2 {
        Err(())
    } else {
        Ok(Card { suit: suit_of_code(s[0])->0, rank: rank_of_code(s[1]) })
    }
}

/// The codes that can be read without failing outright: those with a valid
/// suit and a second character need a rank character there.
pub open spec fn card_code_readable(s: Seq<char>) -> bool {
    (s.len() >= 2 && suit_of_code(s[0]) is Some) ==> is_rank_code(s[1])
}

/// Ranks 1 to 7 show as the single digit two above them, rank 8 as "10",
/// then J, Q, K, A, 2 and the two jokers.
pub proof fn lemma_rank_text_values(r: int)
    requires
        valid_rank(r),
    ensures
        1 <= r <= 7 ==> rank_text(r) == seq![digit_char(r + 2)],
        r == 8 ==> rank_text(r) == seq!['1', '0'],
        r == 9 ==> rank_text(r) == seq!['J'],
        r == 10 ==> rank_text(r) == seq!['Q'],
        r == 11 ==> rank_text(r) == seq!['K'],
        r == 12 ==> rank_text(r) == seq!['A'],
        r == 13 ==> rank_text(r) == seq!['2'],
        r == 14 ==> rank_text(r) == seq!['\u{1F0CF}', '0'],
        r == 15 ==> rank_text(r) == seq!['\u{1F0CF}', '1'],
{
    reveal_with_fuel(decimal_text, 2);
    assert(digit_char(1) == '1' && digit_char(0) == '0');
}

/// The four suits show as one symbol each; any other number shows as
/// nothing.
pub proof fn lemma_suit_text_values(suit: int)
    ensures
        suit == 0 ==> suit_text(suit) == seq!['\u{2660}'],
        suit == 1 ==> suit_text(suit) == seq!['\u{2665}'],
        suit == 2 ==> suit_text(suit) == seq!['\u{2663}'],
        suit == 3 ==> suit_text(suit) == seq!['\u{2666}'],
        !(0 <= suit <= 3) ==> suit_text(suit) == Seq::<char>::empty(),
{
}

/// A card's text starts with its suit's text and ends with its rank's.
pub proof fn lemma_card_text_parts(c: Card)
    ensures
        card_text(c).len() == suit_text(c.suit as int).len() + rank_text(c.rank as int).len(),
        card_text(c).subrange(0, suit_text(c.suit as int).len() as int) == suit_text(c.suit as int),
        card_text(c).subrange(suit_text(c.suit as int).len() as int, card_text(c).len() as int)
            == rank_text(c.rank as int),
{
    let st = suit_text(c.suit as int);
    let rt = rank_text(c.rank as int);
    assert((st + rt).subrange(0, st.len() as int) =~= st);
    assert((st + rt).subrange(st.len() as int, (st + rt).len() as int) =~= rt);
}

/// No two ranks are shown alike.
pub proof fn lemma_rank_text_distinct(a: int, b: int)
    requires
        valid_rank(a),
        valid_rank(b),
        a != b,
    ensures
        rank_text(a) != rank_text(b),
{
    reveal_with_fuel(decimal_text, 2);
    if rank_text(a) == rank_text(b) {
        let ta = rank_text(a);
        let tb = rank_text(b);
        assert(ta.len() == tb.len());
        assert(ta[0] == tb[0]);
        if ta.len() == 2 {
            assert(ta[1] == tb[1]);
        }
    }
}

/// A code whose first character is the suit digit `d` ('0' to '3') and
/// whose second is the digit `e` ('3' to '9') reads as suit `d` and rank
/// `e - 2`.
pub proof fn lemma_read_digit_rank(s: Seq<char>, d: int, e: int)
    requires
        s.len() >= 2,
        0 <= d <= 3,
        3 <= e <= 9,
        s[0] == digit_char(d),
        s[1] == digit_char(e),
    ensures
        parse_card(s) == Ok::<Card, ()>(Card { suit: d as i32, rank: (e - 2) as i32 }),
{
    assert(digit_char(0) == '0' && digit_char(1) == '1' && digit_char(2) == '2' && digit_char(3)
        == '3');
    if e == 3 {
        assert(('3' as u32) == 51);
    } else if e == 4 {
        assert(('4' as u32) == 52);
    } else if e == 5 {
        assert(('5' as u32) == 53);
    } else if e == 6 {
        assert(('6' as u32) == 54);
    } else if e == 7 {
        assert(('7' as u32) == 55);
    } else if e == 8 {
        assert(('8' as u32) == 56);
    } else {
        assert(('9' as u32) == 57);
    }
}

/// A code whose first character is the suit digit `d` ('0' to '3') and
/// whose second is J, Q, K, A, '2', '0' or '1' reads as suit `d` and rank
/// 9, 10, 11, 12, 13, 14 or 15.
pub proof fn lemma_read_named_rank(s: Seq<char>, d: int)
    requires
        s.len() >= 2,
        0 <= d <= 3,
        s[0] == digit_char(d),
    ensures
        s[1] == 'J' ==> parse_card(s) == Ok::<Card, ()>(Card { suit: d as i32, rank: 9 }),
        s[1] == 'Q' ==> parse_card(s) == Ok::<Card, ()>(Card { suit: d as i32, rank: 10 }),
        s[1] == 'K' ==> parse_card(s) == Ok::<Card, ()>(Card { suit: d as i32, rank: 11 }),
        s[1] == 'A' ==> parse_card(s) == Ok::<Card, ()>(Card { suit: d as i32, rank: 12 }),
        s[1] == '2' ==> parse_card(s) == Ok::<Card, ()>(Card { suit: d as i32, rank: 13 }),
        s[1] == '0' ==> parse_card(s) == Ok::<Card, ()>(Card { suit: d as i32, rank: 14 }),
        s[1] == '1' ==> parse_card(s) == Ok::<Card, ()>(Card { suit: d as i32, rank: 15 }),
{
    assert(digit_char(0) == '0' && digit_char(1) == '1' && digit_char(2) == '2' && digit_char(3)
        == '3');
}

/// A code is refused exactly when it is shorter than two characters or
/// does not start with a suit digit '0' to '3'.
pub proof fn lemma_read_refuses(s: Seq<char>)
    ensures
        parse_card(s) is Err <==> (s.len() < 2 || !(s[0] == '0' || s[0] == '1' || s[0] == '2'
            || s[0] == '3')),
{
}

impl Card {
    /// Reads a card from its two-character code: a suit digit '0' to '3'
    /// followed by a rank character (see `rank_of_code`).
    pub fn from_str(s: &str) -> (r: Result<Card, ()>)
        requires
            card_code_readable(s@),
        ensures
            r == parse_card(s@),
    {
        broadcast use vstd::string::group_string_axioms;

        let mut chars = s.chars();
        let suit: i32 = match chars.next() {
            Some('0') => 0,
            Some('1') => 1,
            Some('2') => 2,
            Some('3') => 3,
            _ => {
                return Err(());
            },
        };
        let rank: i32 = match chars.next() {
            Some('J') => 9,
            Some('Q') => 10,
            Some('K') => 11,
            Some('A') => 12,
            Some('2') => 13,
            Some('0') => 14,
            Some('1') => 15,
            Some(c) => {
                let code = c as u32;
                if 48 <= code && code <= 57 {
                    (code - 48) as i32 - 2
                } else {
                    proof {
                        assert(false);
                    }
                    return Err(());
                }
            },
            None => {
                return Err(());
            },
        };
        Ok(Card { suit, rank })
    }

    /// The text of the card: its suit symbol followed by its rank.
    pub fn to_string(&self) -> (s: String)
        requires
            valid_rank(self.rank as int),
        ensures
            s@ == card_text(*self),
    {
        let mut s = suit_to_string(self.suit);
        let r = rank_to_string(self.rank);
        s.append(r.as_str());
        s
    }
}

/// The texts of the cards of a hand, separated by single spaces.
pub fn show_cards(cards: &[Card]) -> (s: String)
    requires
        all_ranks_valid(cards@),
    ensures
        s@ == hand_text(cards@),
{
    let mut s = "".to_owned();
    proof { reveal_strlit(""); reveal_strlit(" "); }
    let n = cards.len();
    let mut i: usize = 0;
    while i < n
        invariant
            n == cards@.len(),
            i <= n,
            all_ranks_valid(cards@),
            s@ == hand_text(cards@.subrange(0, i as int)),
            " "@ == seq![' '],
        decreases n - i,
    {
        let c = cards[i];
        let t = c.to_string();
        proof {
            assert(valid_rank(cards@[i as int].rank as int));
        }
        if i > 0 {
            s.append(" ");
        }
        s.append(t.as_str());
        proof {
            let pre = cards@.subrange(0, i as int);
            let next = cards@.subrange(0, i + 1);
            assert(next.drop_last() =~= pre);
            assert(next.last() == c);
            if i == 0 {
                assert(pre.len() == 0);
            }
        }
        i = i + 1;
    }
    proof {
        assert(cards@.subrange(0, n as int) =~= cards@);
    }
    s
}


/// The card that a wire card stands for.
pub open spec fn card_from_wire(c: proto::Card) -> Card {
    Card { suit: c.suit, rank: c.rank }
}

/// The wire form of a card.
pub open spec fn card_to_wire(c: Card) -> proto::Card {
    proto::Card { suit: c.suit, rank: c.rank }
}

impl<'a> From<&'a proto::Card> for Card {
    fn from(card: &'a proto::Card) -> (r: Card) {
        Card { suit: card.suit, rank: card.rank }
    }
}

impl<'a> vstd::std_specs::convert::FromSpecImpl<&'a proto::Card> for Card {
    open spec fn obeys_from_spec() -> bool {
        true
    }

    open spec fn from_spec(card: &'a proto::Card) -> Card {
        card_from_wire(*card)
    }
}

impl From<Card> for proto::Card {
    fn from(card: Card) -> (r: proto::Card) {
        proto::Card { suit: card.suit, rank: card.rank }
    }
}

impl vstd::std_specs::convert::FromSpecImpl<Card> for proto::Card {
    open spec fn obeys_from_spec() -> bool {
        true
    }

    open spec fn from_spec(card: Card) -> proto::Card {
        card_to_wire(card)
    }
}

} // verus!
