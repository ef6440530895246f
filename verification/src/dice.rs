//! Dice: the throw itself, and the pips that a roll of two dice gives.

use crate::game::Game;
use rand::Rng;
use vstd::prelude::*;

verus! {

/// The pips that two dice give: both faces, or four times the face when
/// they are equal.
pub open spec fn rolled(first: u8, second: u8) -> Seq<u8> {
    if first == second {
        seq![first, first, first, first]
    } else {
        seq![first, second]
    }
}

/// The pips that two dice give, as a list.
pub fn rolled_pips(first: u8, second: u8) -> (pips: Vec<u8>)
    ensures
        pips@ == rolled(first, second),
{
    let mut pips: Vec<u8> = Vec::new();
    pips.push(first);
    pips.push(second);
    if first == second {
        pips.push(first);
        pips.push(first);
    }
    assert(pips@ =~= rolled(first, second));
    pips
}

impl Game {
    /// One throw of a die. It takes the generator of the current thread from
    /// `rand::rng` and calls `Rng::random_range` on it with the range
    /// `1..=6`. The contract claims of that call only that the face lies
    /// within the range asked for; which face comes is left open.
    #[verifier::external_body]
    pub(crate) fn roll() -> (face: u8)
        ensures
            1 <= face <= 6,
    {
        let mut rng = rand::rng();
        rng.random_range(1..=6)
    }

    /// Whether `other` is this game with other pips.
    pub open spec fn differs_in_roll(&self, other: &Game) -> bool {
        &&& self.board == other.board
        &&& self.turn == other.turn
        &&& self.moves == other.moves
        &&& self.previous_moves == other.previous_moves
        &&& self.bar == other.bar
        &&& self.tray == other.tray
        &&& self.is_over == other.is_over
        &&& self.is_running == other.is_running
    }

    /// Replaces the pips by those of a roll that shows `first` and `second`:
    /// the two faces when they differ, four times the face when they are
    /// equal.
    pub fn set_roll(&mut self, first: u8, second: u8)
        requires
            old(self).wf(),
            1 <= first <= 6,
            1 <= second <= 6,
        ensures
            final(self).wf(),
            final(self).differs_in_roll(old(self)),
            final(self).roll_result@ == rolled(first, second),
            first == second ==> final(self).roll_result@.len() == 4 && forall|k: int|
                0 <= k < 4 ==> final(self).roll_result@[k] == first,
            first != second ==> final(self).roll_result@.len() == 2,
    {
        self.roll_result = rolled_pips(first, second);
    }

    /// Throws two dice and replaces the pips by what they give.
    pub fn handle_roll(&mut self)
        requires
            old(self).wf(),
        ensures
            final(self).wf(),
            final(self).differs_in_roll(old(self)),
            exists|first: u8, second: u8|
                1 <= first <= 6 && 1 <= second <= 6
                    && #[trigger] rolled(first, second) == final(self).roll_result@,
    {
        let dice_1: u8 = Game::roll();
        let dice_2: u8 = Game::roll();
        self.set_roll(dice_1, dice_2);
    }
}

} // verus!
