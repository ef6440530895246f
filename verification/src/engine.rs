//! The turn engine: a state machine that takes one event at a time and
//! says what happened. It owns the game and decides; whoever drives it reads
//! the events from the player and shows the outcome.

use crate::dice::rolled;
use crate::game::{Game, PreviousMovesBuffer, BLACK, WHITE};
use vstd::prelude::*;

verus! {

/// Where the engine stands.
#[derive(Clone, Copy, Debug, PartialEq, Eq, Structural)]
pub enum Phase {
    /// Before a game: nothing is on the board but the starting layout.
    Menu,
    /// Each color throws one die until the two differ.
    ChoosingStarter,
    /// The color to move has yet to throw the dice.
    AwaitingRoll,
    /// There are moves to choose from; a source is asked for.
    SelectingSource,
    /// A source was given; a destination is asked for.
    SelectingDestination,
    /// The turn is over: the pips are spent or nothing can move.
    TurnComplete,
    /// A color has borne off all its checkers: the engine holds the winner
    /// and the snapshots of the game, and the board is back at the start.
    GameOver,
    /// The snapshots of a recorded game are looked at one by one.
    Replay,
}

/// What the player, or the files read on the player's behalf, hand to the
/// engine.
#[derive(Debug)]
pub enum Event {
    /// Start a new game.
    Play,
    /// Go on with a saved position.
    Load(PreviousMovesBuffer),
    /// Look at a recorded game.
    Replay(Vec<PreviousMovesBuffer>),
    /// Throw the dice.
    Roll,
    /// A number was entered.
    Number(u8),
    /// The entry was given up.
    Cancel,
    /// Write the position to a file.
    Save,
    /// Leave the game for the menu.
    Menu,
    /// Leave the program.
    Quit,
    /// Go on after a turn has ended.
    Continue,
    /// One snapshot back.
    Back,
    /// One snapshot forward.
    Forward,
    /// To the first snapshot.
    First,
    /// To the last snapshot.
    Last,
    /// The winner has been honoured.
    Done,
}

/// What the engine did with an event.
#[derive(Clone, Copy, Debug, PartialEq, Eq, Structural)]
pub enum Action {
    /// The event means nothing in this phase; nothing changed.
    Ignored,
    /// A game begins; the first color throws for the start.
    Started,
    /// One color has thrown for the start; the other throws next.
    StarterRolled,
    /// Both colors threw the same; both throw again.
    Tie,
    /// The higher throw starts; the color to move is set.
    Starts,
    /// The dice are thrown and there are moves to choose from.
    Rolled,
    /// Nothing can move; the turn is over with pips unspent.
    NoMoves,
    /// A source is noted; the destination is asked for next.
    SourceChosen,
    /// The selection starts over.
    SelectionReset,
    /// The pair is not a legal move; nothing changed.
    InvalidMove,
    /// The move is made and there is more to move.
    Moved,
    /// The move is made and the pips are spent.
    TurnComplete,
    /// The move is made and the game is won: the winner is to be entered
    /// in the leaderboard and the snapshots may be kept as a replay.
    Won,
    /// The other color is to throw.
    TurnPassed,
    /// The position is to be written to a file.
    SaveGame,
    /// The saved position is on the board.
    Loaded,
    /// The saved position or the recorded game cannot be used.
    Rejected,
    /// A snapshot of the recorded game is on the board.
    ReplayShown,
    /// Back in the menu, with the board reset.
    ToMenu,
    /// The program is to end.
    Stopped,
}

/// The engine: the game, the phase, and what the phases need to remember.
#[derive(Debug)]
pub struct TurnEngine {
    pub game: Game,
    pub phase: Phase,
    /// Whether the game went on from a saved position; such a game is not
    /// recorded.
    pub loaded: bool,
    /// The source that was entered last.
    pub source: usize,
    /// The snapshot that a replay shows.
    pub cursor: usize,
    /// The faces that were thrown last.
    pub dice: [u8; 2],
    /// The color that won the game that ended last.
    pub winner: u8,
    /// The snapshots of the game that ended last.
    pub finished: Vec<PreviousMovesBuffer>,
}

/// Whether `moves` lists `mv`.
pub fn lists_move(moves: &Vec<(usize, usize)>, mv: (usize, usize)) -> (listed: bool)
    ensures
        listed == moves@.contains(mv),
{
    let mut at: usize = 0;
    while at < moves.len()
        invariant
            at <= moves.len(),
            forall|k: int| 0 <= k < at ==> moves@[k] != mv,
        decreases moves.len() - at,
    {
        let here = moves[at];
        if here.0 == mv.0 && here.1 == mv.1 {
            assert(moves@[at as int] == mv);
            return true;
        }
        at = at + 1;
    }
    false
}

impl TurnEngine {
    /// The invariant of the engine. Outside a replay the game is valid. In
    /// the menu, and once a game is over, the game is as new. While a move
    /// is selected there are pips left and the listed moves are the legal
    /// ones. A replay shows the snapshot under its cursor.
    pub open spec fn wf(&self) -> bool {
        &&& self.phase != Phase::Replay ==> self.game.wf()
        &&& match self.phase {
            Phase::Menu | Phase::GameOver => self.game.fresh(),
            Phase::ChoosingStarter => self.game.roll_result@.len() <= 1 && !self.loaded,
            Phase::SelectingSource | Phase::SelectingDestination => {
                &&& self.game.roll_result@.len() > 0
                &&& self.game.moves@.len() > 0
                &&& self.game.moves_current()
            },
            Phase::Replay => {
                &&& self.cursor < self.game.previous_moves@.len()
                &&& self.game.position() == self.game.previous_moves@[self.cursor as int]
            },
            _ => true,
        }
    }

    /// Whether `other` remembers what this engine remembers beside the game
    /// and the phase.
    pub open spec fn same_notes(&self, other: &TurnEngine) -> bool {
        &&& self.loaded == other.loaded
        &&& self.source == other.source
        &&& self.cursor == other.cursor
        &&& self.dice == other.dice
        &&& self.same_result(other)
    }

    /// Whether `other` remembers the end of the last game as this engine
    /// does: who won and which snapshots were taken.
    pub open spec fn same_result(&self, other: &TurnEngine) -> bool {
        &&& self.winner == other.winner
        &&& self.finished == other.finished
    }

    /// An engine in the menu, with a new game.
    pub fn new() -> (engine: TurnEngine)
        ensures
            engine.wf(),
            engine.phase == Phase::Menu,
            engine.game.fresh(),
            engine.game.is_running,
            !engine.loaded,
            engine.source == 0,
            engine.cursor == 0,
            engine.dice@ == seq![1u8, 1u8],
            engine.winner == WHITE,
            engine.finished@.len() == 0,
    {
        let dice: [u8; 2] = [1, 1];
        assert(dice@ =~= seq![1u8, 1u8]);
        TurnEngine {
            game: Game::new(),
            phase: Phase::Menu,
            loaded: false,
            source: 0,
            cursor: 0,
            dice,
            winner: WHITE,
            finished: Vec::new(),
        }
    }

    /// The other color.
    pub open spec fn flipped(turn: u8) -> u8 {
        if turn == WHITE {
            BLACK
        } else {
            WHITE
        }
    }

    /// Nothing happened.
    pub open spec fn ignores(&self, post: &TurnEngine, action: Action) -> bool {
        &&& *post == *self
        &&& action == Action::Ignored
    }

    /// A new game begins with the throws for the start.
    pub open spec fn starts_game(&self, post: &TurnEngine, action: Action) -> bool {
        &&& post.game == self.game
        &&& post.phase == Phase::ChoosingStarter
        &&& !post.loaded
        &&& post.source == self.source
        &&& post.cursor == self.cursor
        &&& post.dice == self.dice
        &&& post.same_result(self)
        &&& action == Action::Started
    }

    /// One color throws `die` for the start. After the first throw the other
    /// color is to throw. After the second, equal dice start the throws
    /// over; otherwise the first thrower, white, starts if its die is the
    /// higher one, and black if not, and the first snapshot is taken.
    pub open spec fn throws_for_start(&self, die: u8, post: &TurnEngine, action: Action) -> bool {
        let thrown = self.game.roll_result@;
        &&& post.game.board == self.game.board
        &&& post.game.bar == self.game.bar
        &&& post.game.tray == self.game.tray
        &&& post.game.moves == self.game.moves
        &&& post.game.is_over == self.game.is_over
        &&& post.game.is_running == self.game.is_running
        &&& post.loaded == self.loaded
        &&& post.source == self.source
        &&& post.cursor == self.cursor
        &&& post.dice@ == self.dice@.update(0, die)
        &&& post.same_result(self)
        &&& if thrown.len() == 0 {
            &&& post.game.roll_result@ == seq![die]
            &&& post.game.turn == Self::flipped(self.game.turn)
            &&& post.game.previous_moves == self.game.previous_moves
            &&& post.phase == Phase::ChoosingStarter
            &&& action == Action::StarterRolled
        } else if thrown[0] == die {
            &&& post.game.roll_result@.len() == 0
            &&& post.game.turn == Self::flipped(self.game.turn)
            &&& post.game.previous_moves == self.game.previous_moves
            &&& post.phase == Phase::ChoosingStarter
            &&& action == Action::Tie
        } else {
            &&& post.game.roll_result@.len() == 0
            &&& post.game.turn == if thrown[0] > die {
                WHITE
            } else {
                BLACK
            }
            &&& post.game.previous_moves@ == self.game.previous_moves@.push(post.game.position())
            &&& post.phase == Phase::AwaitingRoll
            &&& action == Action::Starts
        }
    }

    /// The color to move throws `first` and `second`. The pips are those of
    /// the roll and the legal moves are listed. Without a legal move the
    /// turn is over.
    pub open spec fn throws_dice(
        &self,
        first: u8,
        second: u8,
        post: &TurnEngine,
        action: Action,
    ) -> bool {
        &&& post.game.same_position(&self.game)
        &&& post.game.previous_moves == self.game.previous_moves
        &&& post.game.is_over == self.game.is_over
        &&& post.game.is_running == self.game.is_running
        &&& post.game.roll_result@ == rolled(first, second)
        &&& post.game.moves_current()
        &&& post.loaded == self.loaded
        &&& post.source == self.source
        &&& post.cursor == self.cursor
        &&& post.dice@ == seq![first, second]
        &&& post.same_result(self)
        &&& if post.game.moves@.len() > 0 {
            post.phase == Phase::SelectingSource && action == Action::Rolled
        } else {
            post.phase == Phase::TurnComplete && action == Action::NoMoves
        }
    }

    /// The number is noted as the source, and the destination is asked for.
    pub open spec fn notes_source(&self, number: u8, post: &TurnEngine, action: Action) -> bool {
        &&& post.game == self.game
        &&& post.phase == Phase::SelectingDestination
        &&& post.loaded == self.loaded
        &&& post.source == number
        &&& post.cursor == self.cursor
        &&& post.dice == self.dice
        &&& post.same_result(self)
        &&& action == Action::SourceChosen
    }

    /// The selection starts over with the source.
    pub open spec fn resets_selection(&self, post: &TurnEngine, action: Action) -> bool {
        &&& post.game == self.game
        &&& post.phase == Phase::SelectingSource
        &&& post.same_notes(self)
        &&& action == Action::SelectionReset
    }

    /// Whether `snapshot` shows the position after the color to move went
    /// from `source` to `destination`.
    pub open spec fn shows_move(
        &self,
        snapshot: PreviousMovesBuffer,
        source: int,
        destination: int,
    ) -> bool {
        &&& snapshot.board@ == self.game.board_after(source, destination)
        &&& snapshot.turn == self.game.turn
        &&& snapshot.bar@ == self.game.bar_after(source, destination)
        &&& snapshot.tray@ == self.game.tray_after(destination)
    }

    /// Whether `after` holds the snapshots that there are once the move is
    /// made: those taken before and, unless the game went on from a saved
    /// position, one of the position after the move.
    pub open spec fn records_move(
        &self,
        after: Seq<PreviousMovesBuffer>,
        source: int,
        destination: int,
    ) -> bool {
        if self.loaded {
            after == self.game.previous_moves@
        } else {
            &&& after.len() == self.game.previous_moves@.len() + 1
            &&& after.drop_last() == self.game.previous_moves@
            &&& self.shows_move(after.last(), source, destination)
        }
    }

    /// The number is taken as the destination. A pair that is not a legal
    /// move changes nothing but the phase. A legal move is applied and,
    /// unless the game went on from a saved position, a snapshot is taken.
    /// With all fifteen checkers borne off the game is over: the engine
    /// keeps the winner and the snapshots, and the board is back at the
    /// start. Otherwise the legal moves are listed afresh, and the turn is
    /// over when the pips are spent or nothing can move.
    pub open spec fn tries_move(&self, number: u8, post: &TurnEngine, action: Action) -> bool {
        let source = self.source as int;
        let destination = number as int;
        let turn = self.game.turn as int;
        if !self.game.legal(source, destination) {
            &&& post.game == self.game
            &&& post.same_notes(self)
            &&& post.phase == Phase::SelectingSource
            &&& action == Action::InvalidMove
        } else if self.game.tray_after(destination)[turn] == 15 {
            &&& post.game.fresh()
            &&& post.game.is_running
            &&& post.winner == self.game.turn
            &&& self.records_move(post.finished@, source, destination)
            &&& post.loaded == self.loaded
            &&& post.source == self.source
            &&& post.cursor == self.cursor
            &&& post.dice == self.dice
            &&& post.phase == Phase::GameOver
            &&& action == Action::Won
        } else {
            &&& post.game.board@ == self.game.board_after(source, destination)
            &&& post.game.bar@ == self.game.bar_after(source, destination)
            &&& post.game.tray@ == self.game.tray_after(destination)
            &&& post.game.roll_result@ == self.game.roll_after(source, destination)
            &&& post.game.turn == self.game.turn
            &&& post.game.is_over == self.game.is_over
            &&& post.game.is_running == self.game.is_running
            &&& self.records_move(post.game.previous_moves@, source, destination)
            &&& post.game.moves_current()
            &&& post.same_notes(self)
            &&& if post.game.roll_result@.len() == 0 {
                post.phase == Phase::TurnComplete && action == Action::TurnComplete
            } else if post.game.moves@.len() == 0 {
                post.phase == Phase::TurnComplete && action == Action::NoMoves
            } else {
                post.phase == Phase::SelectingSource && action == Action::Moved
            }
        }
    }

    /// The turn passes: the pips and the listed moves are cleared and the
    /// other color is to throw.
    pub open spec fn passes_turn(&self, post: &TurnEngine, action: Action) -> bool {
        &&& post.game.board == self.game.board
        &&& post.game.bar == self.game.bar
        &&& post.game.tray == self.game.tray
        &&& post.game.turn == Self::flipped(self.game.turn)
        &&& post.game.roll_result@.len() == 0
        &&& post.game.moves@.len() == 0
        &&& post.game.previous_moves == self.game.previous_moves
        &&& post.game.is_over == self.game.is_over
        &&& post.game.is_running == self.game.is_running
        &&& post.same_notes(self)
        &&& post.phase == Phase::AwaitingRoll
        &&& action == Action::TurnPassed
    }

    /// The position is to be written to a file; nothing changes.
    pub open spec fn asks_to_save(&self, post: &TurnEngine, action: Action) -> bool {
        &&& *post == *self
        &&& action == Action::SaveGame
    }

    /// The game is given up for the menu: the board is reset.
    pub open spec fn returns_to_menu(&self, post: &TurnEngine, action: Action) -> bool {
        &&& post.game.fresh()
        &&& post.game.is_running
        &&& post.phase == Phase::Menu
        &&& !post.loaded
        &&& post.source == self.source
        &&& post.cursor == self.cursor
        &&& post.dice == self.dice
        &&& post.same_result(self)
        &&& action == Action::ToMenu
    }

    /// The program is to end; the game stays as it is.
    pub open spec fn stops(&self, post: &TurnEngine, action: Action) -> bool {
        &&& post.game.same_position(&self.game)
        &&& post.game.roll_result == self.game.roll_result
        &&& post.game.moves == self.game.moves
        &&& post.game.previous_moves == self.game.previous_moves
        &&& post.game.is_over == self.game.is_over
        &&& !post.game.is_running
        &&& post.phase == self.phase
        &&& post.same_notes(self)
        &&& action == Action::Stopped
    }

    /// The program is to end in the middle of a replay: the board is reset
    /// as well.
    pub open spec fn leaves_replay(&self, post: &TurnEngine, action: Action) -> bool {
        &&& post.game.fresh()
        &&& !post.game.is_running
        &&& post.phase == Phase::Menu
        &&& !post.loaded
        &&& post.source == self.source
        &&& post.cursor == self.cursor
        &&& post.dice == self.dice
        &&& post.same_result(self)
        &&& action == Action::Stopped
    }

    /// A saved position that is valid goes on the board and the color to
    /// move is to throw. One that is not valid changes nothing.
    pub open spec fn loads(
        &self,
        saved: PreviousMovesBuffer,
        post: &TurnEngine,
        action: Action,
    ) -> bool {
        if saved.wf() {
            &&& post.game.position() == saved
            &&& post.game.same_course(&self.game)
            &&& post.phase == Phase::AwaitingRoll
            &&& post.loaded
            &&& post.source == self.source
            &&& post.cursor == self.cursor
            &&& post.dice == self.dice
            &&& post.same_result(self)
            &&& action == Action::Loaded
        } else {
            &&& *post == *self
            &&& action == Action::Rejected
        }
    }

    /// A recorded game with at least one snapshot is taken over, and its
    /// first snapshot goes on the board. An empty one changes nothing.
    pub open spec fn opens_replay(
        &self,
        records: Seq<PreviousMovesBuffer>,
        post: &TurnEngine,
        action: Action,
    ) -> bool {
        if records.len() > 0 {
            &&& post.game.position() == records[0]
            &&& post.game.previous_moves@ == records
            &&& post.game.roll_result == self.game.roll_result
            &&& post.game.moves == self.game.moves
            &&& post.game.is_over == self.game.is_over
            &&& post.game.is_running == self.game.is_running
            &&& post.phase == Phase::Replay
            &&& post.loaded == self.loaded
            &&& post.source == self.source
            &&& post.cursor == 0
            &&& post.dice == self.dice
            &&& post.same_result(self)
            &&& action == Action::ReplayShown
        } else {
            &&& *post == *self
            &&& action == Action::Rejected
        }
    }

    /// The snapshot number `target` goes on the board.
    pub open spec fn turns_page(&self, target: int, post: &TurnEngine, action: Action) -> bool {
        &&& post.game.position() == self.game.previous_moves@[target]
        &&& post.game.same_course(&self.game)
        &&& post.phase == Phase::Replay
        &&& post.loaded == self.loaded
        &&& post.source == self.source
        &&& post.cursor == target
        &&& post.dice == self.dice
        &&& post.same_result(self)
        &&& action == Action::ReplayShown
    }

    /// Starts a new game from the menu.
    pub fn start_game(&mut self) -> (action: Action)
        requires
            old(self).wf(),
            old(self).phase == Phase::Menu,
        ensures
            final(self).wf(),
            old(self).starts_game(final(self), action),
    {
        self.phase = Phase::ChoosingStarter;
        self.loaded = false;
        Action::Started
    }

    /// Takes the die that one color threw for the start, and settles who
    /// starts once both have thrown different dice.
    pub fn choose_who_starts(&mut self, die: u8) -> (action: Action)
        requires
            old(self).wf(),
            old(self).phase == Phase::ChoosingStarter,
            1 <= die <= 6,
        ensures
            final(self).wf(),
            old(self).throws_for_start(die, final(self), action),
    {
        self.dice[0] = die;
        if self.game.roll_result.len() == 0 {
            self.game.roll_result.push(die);
            self.game.change_turn();
            assert(self.game.roll_result@ =~= seq![die]);
            return Action::StarterRolled;
        }
        let first: u8 = self.game.roll_result[0];
        self.game.roll_result.clear();
        if first == die {
            self.game.change_turn();
            return Action::Tie;
        }
        if first > die {
            self.game.turn = WHITE;
        } else {
            self.game.turn = BLACK;
        }
        self.game.record_move();
        self.phase = Phase::AwaitingRoll;
        Action::Starts
    }

    /// Takes the two dice that the color to move threw and lists the legal
    /// moves.
    pub fn throw_dice(&mut self, first: u8, second: u8) -> (action: Action)
        requires
            old(self).wf(),
            old(self).phase == Phase::AwaitingRoll,
            1 <= first <= 6,
            1 <= second <= 6,
        ensures
            final(self).wf(),
            old(self).throws_dice(first, second, final(self), action),
    {
        self.dice[0] = first;
        self.dice[1] = second;
        assert(self.dice@ =~= seq![first, second]);
        self.game.set_roll(first, second);
        self.game.generate_moves();
        if self.game.moves.len() > 0 {
            self.phase = Phase::SelectingSource;
            Action::Rolled
        } else {
            self.phase = Phase::TurnComplete;
            Action::NoMoves
        }
    }

    /// Notes the source that was entered.
    pub fn note_source(&mut self, number: u8) -> (action: Action)
        requires
            old(self).wf(),
            old(self).phase == Phase::SelectingSource,
        ensures
            final(self).wf(),
            old(self).notes_source(number, final(self), action),
    {
        self.source = number as usize;
        self.phase = Phase::SelectingDestination;
        Action::SourceChosen
    }

    /// Starts the selection over.
    pub fn reset_selection(&mut self) -> (action: Action)
        requires
            old(self).wf(),
            old(self).phase == Phase::SelectingSource || old(self).phase
                == Phase::SelectingDestination,
        ensures
            final(self).wf(),
            old(self).resets_selection(final(self), action),
    {
        self.phase = Phase::SelectingSource;
        Action::SelectionReset
    }

    /// Takes the destination that was entered and makes the move if it is
    /// legal.
    pub fn try_move(&mut self, number: u8) -> (action: Action)
        requires
            old(self).wf(),
            old(self).phase == Phase::SelectingDestination,
        ensures
            final(self).wf(),
            old(self).tries_move(number, final(self), action),
    {
        let source: usize = self.source;
        let destination: usize = number as usize;
        if !lists_move(&self.game.moves, (source, destination)) {
            self.phase = Phase::SelectingSource;
            return Action::InvalidMove;
        }
        self.game.move_checker(source, destination);
        if !self.loaded {
            self.game.record_move();
        }
        proof {
            let taken = self.game.previous_moves@;
            if !self.loaded {
                assert(taken.drop_last() =~= old(self).game.previous_moves@);
                assert(taken.last() == self.game.position());
            }
            assert(old(self).records_move(taken, source as int, destination as int));
        }
        if let Some((winner, snapshots)) = self.game.check_is_over() {
            self.winner = winner;
            self.finished = snapshots;
            self.phase = Phase::GameOver;
            return Action::Won;
        }
        self.game.generate_moves();
        if self.game.roll_result.len() == 0 {
            self.phase = Phase::TurnComplete;
            Action::TurnComplete
        } else if self.game.moves.len() == 0 {
            self.phase = Phase::TurnComplete;
            Action::NoMoves
        } else {
            self.phase = Phase::SelectingSource;
            Action::Moved
        }
    }

    /// Passes the turn to the other color.
    pub fn pass_turn(&mut self) -> (action: Action)
        requires
            old(self).wf(),
            old(self).phase == Phase::TurnComplete,
        ensures
            final(self).wf(),
            old(self).passes_turn(final(self), action),
    {
        self.game.roll_result.clear();
        self.game.moves.clear();
        self.game.change_turn();
        self.phase = Phase::AwaitingRoll;
        Action::TurnPassed
    }

    /// Gives the game up for the menu.
    pub fn return_to_menu(&mut self) -> (action: Action)
        ensures
            final(self).wf(),
            old(self).returns_to_menu(final(self), action),
    {
        self.game.reset();
        self.phase = Phase::Menu;
        self.loaded = false;
        Action::ToMenu
    }

    /// Marks the program as ending.
    pub fn stop(&mut self) -> (action: Action)
        requires
            old(self).wf(),
            old(self).phase != Phase::Replay,
        ensures
            final(self).wf(),
            old(self).stops(final(self), action),
    {
        self.game.quit();
        proof {
            self.game.lemma_legal_of_position(&old(self).game);
        }
        Action::Stopped
    }

    /// Ends the program from within a replay.
    pub fn leave_replay(&mut self) -> (action: Action)
        ensures
            final(self).wf(),
            old(self).leaves_replay(final(self), action),
    {
        self.game.reset();
        self.game.quit();
        self.phase = Phase::Menu;
        self.loaded = false;
        Action::Stopped
    }

    /// Goes on with a saved position, if it is a valid one.
    pub fn load(&mut self, saved: PreviousMovesBuffer) -> (action: Action)
        requires
            old(self).wf(),
            old(self).phase == Phase::Menu,
        ensures
            final(self).wf(),
            old(self).loads(saved, final(self), action),
    {
        if !saved.is_valid() {
            return Action::Rejected;
        }
        self.game.restore(&saved);
        self.phase = Phase::AwaitingRoll;
        self.loaded = true;
        Action::Loaded
    }

    /// Takes a recorded game over and shows its first snapshot.
    pub fn open_replay(&mut self, records: Vec<PreviousMovesBuffer>) -> (action: Action)
        requires
            old(self).wf(),
            old(self).phase == Phase::Menu,
        ensures
            final(self).wf(),
            old(self).opens_replay(records@, final(self), action),
    {
        if records.len() == 0 {
            return Action::Rejected;
        }
        self.game.previous_moves = records;
        self.game.show_move(0);
        self.cursor = 0;
        self.phase = Phase::Replay;
        Action::ReplayShown
    }

    /// Shows the snapshot number `target` of the replay.
    pub fn turn_page(&mut self, target: usize) -> (action: Action)
        requires
            old(self).wf(),
            old(self).phase == Phase::Replay,
            target < old(self).game.previous_moves@.len(),
        ensures
            final(self).wf(),
            old(self).turns_page(target as int, final(self), action),
    {
        self.game.show_move(target);
        self.cursor = target;
        Action::ReplayShown
    }

    /// The snapshot that a replay shows after `event`, while it shows the
    /// snapshot `cursor` of `count`: one back or forward as far as there is
    /// one, the first or the last.
    pub open spec fn page_after(event: Event, cursor: int, count: int) -> int {
        match event {
            Event::Back => if cursor > 0 {
                cursor - 1
            } else {
                cursor
            },
            Event::Forward => if cursor + 1 < count {
                cursor + 1
            } else {
                cursor
            },
            Event::First => 0,
            Event::Last => count - 1,
            _ => cursor,
        }
    }

    /// What an event does in each phase, given the dice that a throw would
    /// show. An event that has no meaning in a phase is ignored, and so is
    /// every event once the program is to end.
    pub open spec fn transition(
        &self,
        event: Event,
        first: u8,
        second: u8,
        post: &TurnEngine,
        action: Action,
    ) -> bool {
        if !self.game.is_running {
            self.ignores(post, action)
        } else {
            match self.phase {
                Phase::Menu => match event {
                    Event::Play => self.starts_game(post, action),
                    Event::Load(saved) => self.loads(saved, post, action),
                    Event::Replay(records) => self.opens_replay(records@, post, action),
                    Event::Quit => self.stops(post, action),
                    _ => self.ignores(post, action),
                },
                Phase::ChoosingStarter => match event {
                    Event::Roll => self.throws_for_start(first, post, action),
                    Event::Quit => self.stops(post, action),
                    _ => self.ignores(post, action),
                },
                Phase::AwaitingRoll => match event {
                    Event::Roll => self.throws_dice(first, second, post, action),
                    Event::Save => self.asks_to_save(post, action),
                    Event::Menu => self.returns_to_menu(post, action),
                    Event::Quit => self.stops(post, action),
                    _ => self.ignores(post, action),
                },
                Phase::SelectingSource => match event {
                    Event::Number(number) => self.notes_source(number, post, action),
                    Event::Cancel => self.resets_selection(post, action),
                    _ => self.ignores(post, action),
                },
                Phase::SelectingDestination => match event {
                    Event::Number(number) => self.tries_move(number, post, action),
                    Event::Cancel => self.resets_selection(post, action),
                    _ => self.ignores(post, action),
                },
                Phase::TurnComplete => match event {
                    Event::Continue => self.passes_turn(post, action),
                    _ => self.ignores(post, action),
                },
                Phase::GameOver => match event {
                    Event::Done => self.returns_to_menu(post, action),
                    _ => self.ignores(post, action),
                },
                Phase::Replay => match event {
                    Event::Back | Event::Forward | Event::First | Event::Last => self.turns_page(
                        Self::page_after(
                            event,
                            self.cursor as int,
                            self.game.previous_moves@.len() as int,
                        ),
                        post,
                        action,
                    ),
                    Event::Cancel => self.returns_to_menu(post, action),
                    Event::Quit => self.leaves_replay(post, action),
                    _ => self.ignores(post, action),
                },
            }
        }
    }

    /// Takes one event, with the dice to use should the event be a throw,
    /// and says what happened.
    pub fn advance(&mut self, event: Event, first: u8, second: u8) -> (action: Action)
        requires
            old(self).wf(),
            1 <= first <= 6,
            1 <= second <= 6,
        ensures
            final(self).wf(),
            old(self).transition(event, first, second, final(self), action),
    {
        if !self.game.is_running {
            return Action::Ignored;
        }
        match self.phase {
            Phase::Menu => match event {
                Event::Play => self.start_game(),
                Event::Load(saved) => self.load(saved),
                Event::Replay(records) => self.open_replay(records),
                Event::Quit => self.stop(),
                _ => Action::Ignored,
            },
            Phase::ChoosingStarter => match event {
                Event::Roll => self.choose_who_starts(first),
                Event::Quit => self.stop(),
                _ => Action::Ignored,
            },
            Phase::AwaitingRoll => match event {
                Event::Roll => self.throw_dice(first, second),
                Event::Save => Action::SaveGame,
                Event::Menu => self.return_to_menu(),
                Event::Quit => self.stop(),
                _ => Action::Ignored,
            },
            Phase::SelectingSource => match event {
                Event::Number(number) => self.note_source(number),
                Event::Cancel => self.reset_selection(),
                _ => Action::Ignored,
            },
            Phase::SelectingDestination => match event {
                Event::Number(number) => self.try_move(number),
                Event::Cancel => self.reset_selection(),
                _ => Action::Ignored,
            },
            Phase::TurnComplete => match event {
                Event::Continue => self.pass_turn(),
                _ => Action::Ignored,
            },
            Phase::GameOver => match event {
                Event::Done => self.return_to_menu(),
                _ => Action::Ignored,
            },
            Phase::Replay => {
                let last: usize = self.game.previous_moves.len() - 1;
                match event {
                    Event::Back => {
                        let target: usize = if self.cursor > 0 {
                            self.cursor - 1
                        } else {
                            self.cursor
                        };
                        self.turn_page(target)
                    },
                    Event::Forward => {
                        let target: usize = if self.cursor < last {
                            self.cursor + 1
                        } else {
                            self.cursor
                        };
                        self.turn_page(target)
                    },
                    Event::First => self.turn_page(0),
                    Event::Last => self.turn_page(last),
                    Event::Cancel => self.return_to_menu(),
                    Event::Quit => self.leave_replay(),
                    _ => Action::Ignored,
                }
            },
        }
    }

    /// Takes one event and says what happened. A throw uses dice thrown
    /// here, so the outcome is that of `advance` for some pair of faces.
    pub fn step(&mut self, event: Event) -> (action: Action)
        requires
            old(self).wf(),
        ensures
            final(self).wf(),
            exists|first: u8, second: u8|
                1 <= first <= 6 && 1 <= second <= 6 && #[trigger] old(self).transition(
                    event,
                    first,
                    second,
                    final(self),
                    action,
                ),
    {
        let throws: bool = match &event {
            Event::Roll => true,
            _ => false,
        };
        let first: u8 = if throws {
            Game::roll()
        } else {
            1
        };
        let second: u8 = if throws && self.phase == Phase::AwaitingRoll {
            Game::roll()
        } else {
            1
        };
        self.advance(event, first, second)
    }
}

} // verus!
