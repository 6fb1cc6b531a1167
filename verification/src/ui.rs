use std::collections::HashSet;

use vstd::prelude::*;

use crate::card::{all_ranks_valid, card_text, Card};

pub mod loginui;

verus! {

broadcast use vstd::std_specs::hash::group_hash_axioms;

/// Number of milliseconds between two refreshes of the terminal.
pub const TICK_RATE: u64 = 250;

/// How one card of the hand is drawn: its text, whether it is picked to be
/// played (drawn highlighted) and whether the cursor is on it (underlined).
#[derive(Debug)]
pub struct CardCell {
    pub text: String,
    pub selected: bool,
    pub underlined: bool,
}

/// How the hand is drawn, card by card, given the picked positions and the
/// cursor position.
pub fn card_cells(cards: &[Card], selected: &HashSet<usize>, current: usize) -> (r: Vec<CardCell>)
    requires
        all_ranks_valid(cards@),
    ensures
        r@.len() == cards@.len(),
        forall|i: int|
            0 <= i < cards@.len() ==> {
                &&& (#[trigger] r@[i]).text@ == card_text(cards@[i])
                &&& r@[i].selected == selected@.contains(i as usize)
                &&& r@[i].underlined == (i == current)
            },
{
    let mut r: Vec<CardCell> = Vec::new();
    let n = cards.len();
    let mut i: usize = 0;
    while i < n
        invariant
            n == cards@.len(),
            i <= n,
            all_ranks_valid(cards@),
            r@.len() == i,
            forall|k: int|
                0 <= k < i ==> {
                    &&& (#[trigger] r@[k]).text@ == card_text(cards@[k])
                    &&& r@[k].selected == selected@.contains(k as usize)
                    &&& r@[k].underlined == (k == current)
                },
        decreases n - i,
    {
        proof {
            assert(crate::card::valid_rank(cards@[i as int].rank as int));
        }
        let text = cards[i].to_string();
        let is_selected = selected.contains(&i);
        r.push(CardCell { text, selected: is_selected, underlined: current == i });
        i = i + 1;
    }
    r
}

} // verus!
