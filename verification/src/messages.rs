//! The lines of text that tell the players where the game stands.

use crate::game::{Game, WHITE};
use crate::text::{digits_of, push_number};
use vstd::prelude::*;
use vstd::string::*;

verus! {

/// Appends the bytes of `text` to `out`.
pub fn push_text(out: &mut Vec<u8>, text: &str)
    ensures
        final(out)@ == old(out)@ + text.spec_bytes(),
{
    let bytes = text.as_bytes();
    let mut i: usize = 0;
    while i < bytes.len()
        invariant
            i <= bytes.len(),
            out@ == old(out)@ + bytes@.take(i as int),
        decreases bytes.len() - i,
    {
        out.push(bytes[i]);
        proof {
            assert(out@ =~= old(out)@ + bytes@.take(i + 1));
        }
        i = i + 1;
    }
    proof {
        assert(bytes@.take(bytes.len() as int) =~= bytes@);
    }
}

/// The text of a row of numbers with a comma and a blank between them.
pub open spec fn list_text(values: Seq<u8>) -> Seq<u8>
    decreases values.len(),
{
    if values.len() == 0 {
        Seq::empty()
    } else if values.len() == 1 {
        digits_of(values[0] as nat)
    } else {
        digits_of(values[0] as nat) + ", ".spec_bytes() + list_text(values.skip(1))
    }
}

/// The text of a move: the source, an arrow, the destination.
pub open spec fn move_text(mv: (usize, usize)) -> Seq<u8> {
    digits_of(mv.0 as nat) + "->".spec_bytes() + digits_of(mv.1 as nat)
}

/// The text of a row of moves with a comma and a blank between them.
pub open spec fn moves_text(moves: Seq<(usize, usize)>) -> Seq<u8>
    decreases moves.len(),
{
    if moves.len() == 0 {
        Seq::empty()
    } else if moves.len() == 1 {
        move_text(moves[0])
    } else {
        move_text(moves[0]) + ", ".spec_bytes() + moves_text(moves.skip(1))
    }
}

/// The line that says whose turn it is.
pub open spec fn turn_text(turn: u8) -> Seq<char> {
    if turn == WHITE {
        "White's turn"@
    } else {
        "Black's turn"@
    }
}

/// The line under a snapshot of a replay: the first one is the beginning,
/// the others are numbered.
pub open spec fn caption_text(index: usize) -> Seq<u8> {
    if index == 0 {
        "Beggining".spec_bytes()
    } else {
        "Move number: ".spec_bytes() + digits_of(index as nat)
    }
}

/// The line under the snapshot number `index` of a replay.
pub fn print_caption(index: usize) -> (text: Vec<u8>)
    ensures
        text@ == caption_text(index),
{
    let mut text: Vec<u8> = Vec::new();
    if index == 0 {
        push_text(&mut text, "Beggining");
    } else {
        push_text(&mut text, "Move number: ");
        push_number(&mut text, index as u64);
    }
    proof {
        assert(Seq::<u8>::empty() + caption_text(index) =~= caption_text(index));
        assert(text@ =~= caption_text(index));
    }
    text
}

/// The line that names the winner and asks for a nick.
pub open spec fn winner_text(turn: u8) -> Seq<char> {
    if turn == WHITE {
        "White has won! Enter winner's nick:"@
    } else {
        "Black has won! Enter winner's nick:"@
    }
}

/// The line that names `winner` as the winner and asks for a nick.
pub fn print_winner(winner: u8) -> (text: &'static str)
    ensures
        text@ == winner_text(winner),
{
    if winner == WHITE {
        "White has won! Enter winner's nick:"
    } else {
        "Black has won! Enter winner's nick:"
    }
}

impl Game {
    /// The line that says whose turn it is.
    pub fn print_turn(&self) -> (text: &'static str)
        ensures
            text@ == turn_text(self.turn),
    {
        if self.turn == WHITE {
            "White's turn"
        } else {
            "Black's turn"
        }
    }

    /// The line that lists the moves to choose from.
    pub fn print_moves(&self) -> (text: Vec<u8>)
        ensures
            text@ == "Moves: ".spec_bytes() + moves_text(self.moves@),
    {
        let mut text: Vec<u8> = Vec::new();
        push_text(&mut text, "Moves: ");
        let ghost head = text@;
        let mut i: usize = 0;
        proof {
            assert(head =~= "Moves: ".spec_bytes());
            assert(self.moves@.skip(0) =~= self.moves@);
        }
        while i < self.moves.len()
            invariant
                i <= self.moves.len(),
                text@ + moves_text(self.moves@.skip(i as int)) == head + moves_text(self.moves@),
            decreases self.moves.len() - i,
        {
            let ghost before = text@;
            let ghost rest = self.moves@.skip(i as int);
            let mv = self.moves[i];
            push_number(&mut text, mv.0 as u64);
            push_text(&mut text, "->");
            push_number(&mut text, mv.1 as u64);
            if i + 1 < self.moves.len() {
                push_text(&mut text, ", ");
            }
            proof {
                assert(rest.skip(1) =~= self.moves@.skip(i + 1));
                assert(text@ + moves_text(rest.skip(1)) =~= before + moves_text(rest));
            }
            i = i + 1;
        }
        proof {
            assert(text@ + Seq::<u8>::empty() =~= text@);
        }
        text
    }

    /// The line that shows the pips that are left.
    pub fn print_roll(&self) -> (text: Vec<u8>)
        ensures
            text@ == "Result: ".spec_bytes() + list_text(self.roll_result@),
    {
        let mut text: Vec<u8> = Vec::new();
        push_text(&mut text, "Result: ");
        let ghost head = text@;
        let mut i: usize = 0;
        proof {
            assert(head =~= "Result: ".spec_bytes());
            assert(self.roll_result@.skip(0) =~= self.roll_result@);
        }
        while i < self.roll_result.len()
            invariant
                i <= self.roll_result.len(),
                text@ + list_text(self.roll_result@.skip(i as int)) == head + list_text(
                    self.roll_result@,
                ),
            decreases self.roll_result.len() - i,
        {
            let ghost before = text@;
            let ghost rest = self.roll_result@.skip(i as int);
            push_number(&mut text, self.roll_result[i] as u64);
            if i + 1 < self.roll_result.len() {
                push_text(&mut text, ", ");
            }
            proof {
                assert(rest.skip(1) =~= self.roll_result@.skip(i + 1));
                assert(text@ + list_text(rest.skip(1)) =~= before + list_text(rest));
            }
            i = i + 1;
        }
        proof {
            assert(text@ + Seq::<u8>::empty() =~= text@);
        }
        text
    }
}

} // verus!
