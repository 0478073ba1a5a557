//! A reading: the result of one draw, held for display.

use vstd::prelude::*;
use crate::deck::{DrawnCard, DrawnView};

verus! {

/// The cards of one draw, in draw order.
#[derive(Debug, PartialEq)]
pub struct Reading {
    cards: Vec<DrawnCard>,
}

impl View for Reading {
    type V = Seq<DrawnView>;

    closed spec fn view(&self) -> Seq<DrawnView> {
        self.cards.deep_view()
    }
}

impl Reading {
    /// A reading with no cards.
    pub fn empty() -> (r: Self)
        ensures
            r@.len() == 0,
    {
        let r = Reading { cards: Vec::new() };
        proof {
            assert(r@ =~= Seq::<DrawnView>::empty());
        }
        r
    }

    /// A reading holding the given drawn cards.
    pub fn from_cards(cards: Vec<DrawnCard>) -> (r: Self)
        ensures
            r@ == cards.deep_view(),
    {
        Reading { cards }
    }

    pub fn cards(&self) -> (r: &Vec<DrawnCard>)
        ensures
            r.deep_view() == self@,
    {
        &self.cards
    }

    pub fn has_cards(&self) -> (r: bool)
        ensures
            r == (self@.len() > 0),
    {
        self.cards.len() > 0
    }
}

impl Default for Reading {
    /// An empty reading.
    fn default() -> (r: Self)
        ensures
            r@.len() == 0,
    {
        Reading::empty()
    }
}

impl Clone for Reading {
    fn clone(&self) -> (r: Self)
        ensures
            r@ == self@,
    {
        let mut cards: Vec<DrawnCard> = Vec::new();
        let mut i: usize = 0;
        while i < self.cards.len()
            invariant
                i <= self.cards@.len(),
                cards@.len() == i,
                forall|j: int| 0 <= j < i ==> cards@[j]@ == self.cards@[j]@,
            decreases self.cards@.len() - i,
        {
            cards.push(self.cards[i].clone());
            i = i + 1;
        }
        let r = Reading { cards };
        proof {
            assert(r@ =~= self@);
        }
        r
    }
}

} // verus!
