//! The board: twenty-four fields, the bar and the tray of each color, and
//! the queries derived from them.

use vstd::prelude::*;

verus! {

/// The color that moves from field 24 down to field 1.
pub const WHITE: u8 = 0;

/// The color that moves from field 1 up to field 24.
pub const BLACK: u8 = 1;

/// A full copy of a position: the board, the color to move, and the bar and
/// tray counters.
#[derive(Clone, Copy, Debug, PartialEq, Eq)]
pub struct PreviousMovesBuffer {
    pub board: [u8; 24],
    pub turn: u8,
    pub bar: [u8; 2],
    pub tray: [u8; 2],
}

/// The color that a raw field value belongs to: 1 to 15 are white checkers,
/// 16 to 30 are black checkers, anything else belongs to nobody.
pub open spec fn owner_of(value: u8) -> Option<u8> {
    if 1 <= value <= 15 {
        Some(WHITE)
    } else if 16 <= value <= 30 {
        Some(BLACK)
    } else {
        None
    }
}

/// The number of checkers that a raw field value stands for.
pub open spec fn count_of(value: u8) -> nat {
    if 1 <= value <= 15 {
        value as nat
    } else if 16 <= value <= 30 {
        (value - 15) as nat
    } else {
        0
    }
}

/// The number of checkers of `color` that a raw field value stands for.
pub open spec fn count_for(value: u8, color: u8) -> nat {
    if owner_of(value) == Some(color) {
        count_of(value)
    } else {
        0
    }
}

/// The checkers of `color` on the entries `lo..hi` of `points`.
pub open spec fn checkers_in(points: Seq<u8>, color: u8, lo: int, hi: int) -> nat
    decreases hi - lo,
{
    if hi <= lo {
        0
    } else {
        checkers_in(points, color, lo, hi - 1) + count_for(points[hi - 1], color)
    }
}

/// The checkers of `color` on the whole of `points`.
pub open spec fn checkers_on(points: Seq<u8>, color: u8) -> nat {
    checkers_in(points, color, 0, points.len() as int)
}

/// A position is valid when every field holds a value of the encoding, the
/// color to move is one of the two, and each color has its fifteen checkers
/// spread over board, bar and tray.
pub open spec fn valid_position(board: Seq<u8>, turn: u8, bar: Seq<u8>, tray: Seq<u8>) -> bool {
    &&& board.len() == 24
    &&& bar.len() == 2
    &&& tray.len() == 2
    &&& turn <= 1
    &&& forall|i: int| 0 <= i < 24 ==> #[trigger] board[i] <= 30
    &&& checkers_on(board, WHITE) + bar[0] + tray[0] == 15
    &&& checkers_on(board, BLACK) + bar[1] + tray[1] == 15
}

/// The index of the first home field of `color` in the board array.
pub open spec fn home_start(color: u8) -> int {
    if color == WHITE {
        0
    } else {
        18
    }
}

/// The checkers of `color` inside its own home quadrant.
pub open spec fn home_checkers(board: Seq<u8>, color: u8) -> nat {
    checkers_in(board, color, home_start(color), home_start(color) + 6)
}

/// The marker from which captured checkers of `color` re-enter.
pub open spec fn bar_marker(color: u8) -> int {
    if color == WHITE {
        25
    } else {
        0
    }
}

/// The marker to which checkers of `color` are borne off.
pub open spec fn tray_marker(color: u8) -> int {
    if color == WHITE {
        0
    } else {
        25
    }
}

/// The distance between two places of the extended index space.
pub open spec fn distance(a: int, b: int) -> int {
    if a <= b {
        b - a
    } else {
        a - b
    }
}

/// Where a checker of `color` lands that leaves `from` with `pip`.
pub open spec fn landing(color: u8, from: int, pip: int) -> int {
    if color == WHITE {
        from - pip
    } else {
        from + pip
    }
}

/// The home field of `color` that lies `depth` fields away from its tray.
pub open spec fn home_field(color: u8, depth: int) -> int {
    if color == WHITE {
        depth
    } else {
        25 - depth
    }
}

/// The occupied home field of `color` that lies farthest from its tray,
/// looking no farther than `depth` fields away from the tray.
pub open spec fn farthest_within(board: Seq<u8>, color: u8, depth: int) -> Option<int>
    decreases depth,
{
    if depth <= 0 {
        None
    } else if owner_of(board[home_field(color, depth) - 1]) == Some(color) {
        Some(home_field(color, depth))
    } else {
        farthest_within(board, color, depth - 1)
    }
}

/// The standard starting layout.
pub open spec fn starting_board() -> Seq<u8> {
    seq![
        17u8, 0, 0, 0, 0, 5, 0, 3, 0, 0, 0, 20, 5, 0, 0, 0, 18, 0, 20, 0, 0, 0, 0, 2,
    ]
}

/// Adding up over `lo..hi` can be split at any `mid` in between.
pub proof fn lemma_checkers_split(points: Seq<u8>, color: u8, lo: int, mid: int, hi: int)
    requires
        lo <= mid <= hi,
    ensures
        checkers_in(points, color, lo, hi) == checkers_in(points, color, lo, mid) + checkers_in(
            points,
            color,
            mid,
            hi,
        ),
    decreases hi - mid,
{
    if mid < hi {
        lemma_checkers_split(points, color, lo, mid, hi - 1);
    }
}

/// Two sequences that agree on `lo..hi` hold the same checkers there.
pub proof fn lemma_checkers_agree(a: Seq<u8>, b: Seq<u8>, color: u8, lo: int, hi: int)
    requires
        forall|i: int| lo <= i < hi ==> a[i] == b[i],
    ensures
        checkers_in(a, color, lo, hi) == checkers_in(b, color, lo, hi),
    decreases hi - lo,
{
    if lo < hi {
        lemma_checkers_agree(a, b, color, lo, hi - 1);
    }
}

/// Writing `value` to entry `at` changes the count by what that entry gains
/// or loses.
pub proof fn lemma_checkers_update(points: Seq<u8>, color: u8, at: int, value: u8)
    requires
        0 <= at < points.len(),
    ensures
        checkers_on(points.update(at, value), color) + count_for(points[at], color)
            == checkers_on(points, color) + count_for(value, color),
{
    let after = points.update(at, value);
    let n = points.len() as int;
    lemma_checkers_split(points, color, 0, at, n);
    lemma_checkers_split(points, color, at, at + 1, n);
    lemma_checkers_split(after, color, 0, at, n);
    lemma_checkers_split(after, color, at, at + 1, n);
    lemma_checkers_agree(points, after, color, 0, at);
    lemma_checkers_agree(points, after, color, at + 1, n);
    assert(checkers_in(points, color, at, at) == 0);
    assert(checkers_in(after, color, at, at) == 0);
}

/// A single entry holds no more checkers of a color than the range around it.
pub proof fn lemma_checkers_bound(points: Seq<u8>, color: u8, lo: int, hi: int, at: int)
    requires
        lo <= at < hi,
    ensures
        count_for(points[at], color) <= checkers_in(points, color, lo, hi),
{
    lemma_checkers_split(points, color, lo, at, hi);
    lemma_checkers_split(points, color, at, at + 1, hi);
    assert(checkers_in(points, color, at, at) == 0);
}

/// Two different entries together hold no more checkers of a color than the
/// whole sequence.
pub proof fn lemma_checkers_pair_bound(points: Seq<u8>, color: u8, a: int, b: int)
    requires
        0 <= a < points.len(),
        0 <= b < points.len(),
        a != b,
    ensures
        count_for(points[a], color) + count_for(points[b], color) <= checkers_on(points, color),
{
    let n = points.len() as int;
    let (x, y) = if a < b { (a, b) } else { (b, a) };
    lemma_checkers_split(points, color, 0, x + 1, n);
    lemma_checkers_bound(points, color, 0, x + 1, x);
    lemma_checkers_bound(points, color, x + 1, n, y);
}

/// What `farthest_within` finds is an occupied field within reach, and no
/// occupied field lies between it and the limit of the search.
pub proof fn lemma_farthest_within(board: Seq<u8>, color: u8, depth: int)
    requires
        0 <= depth,
    ensures
        match farthest_within(board, color, depth) {
            Some(field) => exists|d: int|
                1 <= d <= depth && field == #[trigger] home_field(color, d) && owner_of(
                    board[field - 1],
                ) == Some(color) && forall|e: int|
                    d < e <= depth ==> owner_of(board[#[trigger] home_field(color, e) - 1]) != Some(
                        color,
                    ),
            None => forall|e: int|
                1 <= e <= depth ==> owner_of(board[#[trigger] home_field(color, e) - 1]) != Some(
                    color,
                ),
        },
    decreases depth,
{
    if depth > 0 {
        if owner_of(board[home_field(color, depth) - 1]) == Some(color) {
            assert(home_field(color, depth) == home_field(color, depth));
        } else {
            lemma_farthest_within(board, color, depth - 1);
        }
    }
}

/// Each color starts with all fifteen checkers on the board.
pub proof fn lemma_starting_board()
    ensures
        starting_board().len() == 24,
        checkers_on(starting_board(), WHITE) == 15,
        checkers_on(starting_board(), BLACK) == 15,
        valid_position(starting_board(), WHITE, seq![0u8, 0u8], seq![0u8, 0u8]),
{
    reveal_with_fuel(checkers_in, 25);
}

/// A game: the position, the pips still to be spent this turn, the moves
/// that are legal right now, and the snapshots taken so far.
#[derive(Debug)]
pub struct Game {
    pub board: [u8; 24],
    pub turn: u8,
    pub roll_result: Vec<u8>,
    pub moves: Vec<(usize, usize)>,
    pub previous_moves: Vec<PreviousMovesBuffer>,
    pub bar: [u8; 2],
    pub tray: [u8; 2],
    pub is_over: bool,
    pub is_running: bool,
}

impl PreviousMovesBuffer {
    /// Whether the snapshot holds a valid position.
    pub open spec fn wf(&self) -> bool {
        valid_position(self.board@, self.turn, self.bar@, self.tray@)
    }

    /// Checks that the snapshot holds a valid position.
    pub fn is_valid(&self) -> (ok: bool)
        ensures
            ok == self.wf(),
    {
        if self.turn > 1 {
            return false;
        }
        let mut white: u32 = 0;
        let mut black: u32 = 0;
        let mut i: usize = 0;
        while i < 24
            invariant
                i <= 24,
                forall|k: int| 0 <= k < i ==> #[trigger] self.board@[k] <= 30,
                white == checkers_in(self.board@, WHITE, 0, i as int),
                black == checkers_in(self.board@, BLACK, 0, i as int),
                white <= 15 * i,
                black <= 15 * i,
            decreases 24 - i,
        {
            let value: u8 = self.board[i];
            if value > 30 {
                return false;
            }
            if value >= 16 {
                black = black + (value - 15) as u32;
            } else {
                white = white + value as u32;
            }
            i = i + 1;
        }
        white + self.bar[0] as u32 + self.tray[0] as u32 == 15 && black + self.bar[1] as u32
            + self.tray[1] as u32 == 15
    }
}

impl Game {
    /// The invariant of a game: the position is valid and every remaining
    /// pip is a die face.
    pub open spec fn wf(&self) -> bool {
        &&& valid_position(self.board@, self.turn, self.bar@, self.tray@)
        &&& forall|k: int|
            0 <= k < self.roll_result@.len() ==> 1 <= #[trigger] self.roll_result@[k] <= 6
    }

    /// Whether the game is as new: the starting layout, white to move,
    /// nothing rolled, nothing listed, nothing recorded and nobody the
    /// winner.
    pub open spec fn fresh(&self) -> bool {
        &&& self.board@ == starting_board()
        &&& self.turn == WHITE
        &&& self.roll_result@.len() == 0
        &&& self.moves@.len() == 0
        &&& self.previous_moves@.len() == 0
        &&& self.bar@ == seq![0u8, 0u8]
        &&& self.tray@ == seq![0u8, 0u8]
        &&& !self.is_over
    }

    /// The color that holds `field`, if any.
    pub open spec fn owner_at(&self, field: int) -> Option<u8> {
        owner_of(self.board@[field - 1])
    }

    /// The number of checkers on `field`, whoever owns them.
    pub open spec fn count_at(&self, field: int) -> nat {
        count_of(self.board@[field - 1])
    }

    /// Whether every checker of `color` that is not borne off stands in the
    /// home quadrant of `color`.
    pub open spec fn all_home(&self, color: u8) -> bool {
        home_checkers(self.board@, color) == 15 - self.tray@[color as int]
    }

    /// The occupied home field of `color` farthest from its tray.
    pub open spec fn farthest(&self, color: u8) -> Option<int> {
        farthest_within(self.board@, color, 6)
    }

    /// A new game in the standard starting layout, white to move, with
    /// nothing rolled and nothing recorded.
    pub fn new() -> (game: Game)
        ensures
            game.wf(),
            game.fresh(),
            game.is_running,
    {
        let game = Game {
            board: [17, 0, 0, 0, 0, 5, 0, 3, 0, 0, 0, 20, 5, 0, 0, 0, 18, 0, 20, 0, 0, 0, 0, 2],
            turn: WHITE,
            roll_result: Vec::new(),
            moves: Vec::new(),
            previous_moves: Vec::new(),
            bar: [0, 0],
            tray: [0, 0],
            is_over: false,
            is_running: true,
        };
        proof {
            lemma_starting_board();
            assert(game.board@ =~= starting_board());
            assert(game.bar@ =~= seq![0u8, 0u8]);
            assert(game.tray@ =~= seq![0u8, 0u8]);
        }
        game
    }

    /// The color that holds `field`: white for a raw value of 1 to 15, black
    /// for 16 to 30, nobody otherwise.
    pub fn which_color(&self, field: usize) -> (color: Option<u8>)
        requires
            1 <= field <= 24,
        ensures
            color == self.owner_at(field as int),
    {
        let value: u8 = self.board[field - 1];
        if value >= 1 && value <= 15 {
            Some(WHITE)
        } else if value >= 16 && value <= 30 {
            Some(BLACK)
        } else {
            None
        }
    }

    /// The number of checkers on `field`, from 0 to 15, whoever owns them.
    pub fn checker_count(&self, field: usize) -> (count: u8)
        requires
            1 <= field <= 24,
        ensures
            count == self.count_at(field as int),
            count <= 15,
    {
        let value: u8 = self.board[field - 1];
        if value >= 1 && value <= 15 {
            value
        } else if value >= 16 && value <= 30 {
            value - 15
        } else {
            0
        }
    }

    /// Whether all checkers of `color` that are still in play stand in its
    /// home quadrant.
    pub fn are_all_home(&self, color: u8) -> (home: bool)
        requires
            color <= 1,
        ensures
            home == self.all_home(color),
    {
        let start: usize = if color == WHITE { 0 } else { 18 };
        let mut checker_count: u8 = 0;
        let mut i: usize = 0;
        while i < 6
            invariant
                i <= 6,
                color <= 1,
                start == home_start(color),
                self.board@.len() == 24,
                checker_count == checkers_in(self.board@, color, start as int, start + i),
                checker_count <= 15 * i,
            decreases 6 - i,
        {
            let value: u8 = self.board[start + i];
            if color == WHITE {
                if value >= 1 && value <= 15 {
                    checker_count = checker_count + value;
                }
            } else {
                if value >= 16 && value <= 30 {
                    checker_count = checker_count + (value - 15);
                }
            }
            i = i + 1;
        }
        let borne: u8 = self.tray[color as usize];
        borne <= 15 && checker_count == 15 - borne
    }

    /// The occupied home field of `color` that lies farthest from its tray,
    /// or `None` when no home field holds a checker of `color`.
    pub fn farthest_to_tray(&self, color: u8) -> (field: Option<usize>)
        requires
            color <= 1,
        ensures
            match field {
                Some(f) => self.farthest(color) == Some(f as int) && 1 <= f <= 24,
                None => self.farthest(color).is_none(),
            },
    {
        let mut depth: usize = 6;
        while depth > 0
            invariant
                depth <= 6,
                color <= 1,
                self.farthest(color) == farthest_within(self.board@, color, depth as int),
            decreases depth,
        {
            let field: usize = if color == WHITE { depth } else { 25 - depth };
            if self.which_color(field) == Some(color) {
                return Some(field);
            }
            depth = depth - 1;
        }
        None
    }
}

impl Game {
    /// The position of the game as a snapshot.
    pub open spec fn position(&self) -> PreviousMovesBuffer {
        PreviousMovesBuffer { board: self.board, turn: self.turn, bar: self.bar, tray: self.tray }
    }

    /// Whether `other` has the position of this game.
    pub open spec fn same_position(&self, other: &Game) -> bool {
        &&& self.board == other.board
        &&& self.turn == other.turn
        &&& self.bar == other.bar
        &&& self.tray == other.tray
    }

    /// Whether `other` has the pips, the listed moves, the snapshots and
    /// the flags of this game.
    pub open spec fn same_course(&self, other: &Game) -> bool {
        &&& self.roll_result == other.roll_result
        &&& self.moves == other.moves
        &&& self.previous_moves == other.previous_moves
        &&& self.is_over == other.is_over
        &&& self.is_running == other.is_running
    }

    /// A copy of the position.
    pub fn snapshot(&self) -> (copy: PreviousMovesBuffer)
        ensures
            copy == self.position(),
    {
        PreviousMovesBuffer { board: self.board, turn: self.turn, bar: self.bar, tray: self.tray }
    }

    /// Checks the invariant of the game.
    pub fn is_valid(&self) -> (ok: bool)
        ensures
            ok == self.wf(),
    {
        if !self.snapshot().is_valid() {
            return false;
        }
        let mut k: usize = 0;
        while k < self.roll_result.len()
            invariant
                k <= self.roll_result.len(),
                forall|j: int| 0 <= j < k ==> 1 <= #[trigger] self.roll_result@[j] <= 6,
            decreases self.roll_result.len() - k,
        {
            let pip: u8 = self.roll_result[k];
            if pip < 1 || pip > 6 {
                return false;
            }
            k = k + 1;
        }
        true
    }

    /// Appends a snapshot of the position to the snapshots taken so far.
    pub fn record_move(&mut self)
        ensures
            final(self).previous_moves@ == old(self).previous_moves@.push(old(self).position()),
            old(self).wf() ==> final(self).wf(),
            final(self).same_position(old(self)),
            final(self).roll_result == old(self).roll_result,
            final(self).moves == old(self).moves,
            final(self).is_over == old(self).is_over,
            final(self).is_running == old(self).is_running,
    {
        let copy = self.snapshot();
        self.previous_moves.push(copy);
    }

    /// Puts the position of the snapshot number `index` on the board. An
    /// index past the last snapshot changes nothing.
    pub fn show_move(&mut self, index: usize)
        ensures
            final(self).same_course(old(self)),
            index < old(self).previous_moves@.len() ==> final(self).position() == old(
                self,
            ).previous_moves@[index as int],
            index >= old(self).previous_moves@.len() ==> final(self).same_position(old(self)),
    {
        if index < self.previous_moves.len() {
            let mv = self.previous_moves[index];
            self.board = mv.board;
            self.turn = mv.turn;
            self.bar = mv.bar;
            self.tray = mv.tray;
        }
    }

    /// Puts the position of `saved` on the board.
    pub fn restore(&mut self, saved: &PreviousMovesBuffer)
        ensures
            final(self).same_course(old(self)),
            final(self).position() == *saved,
            old(self).wf() && saved.wf() ==> final(self).wf(),
    {
        self.board = saved.board;
        self.turn = saved.turn;
        self.bar = saved.bar;
        self.tray = saved.tray;
    }

    /// Passes the turn to the other color.
    pub fn change_turn(&mut self)
        ensures
            final(self).turn == if old(self).turn == WHITE {
                BLACK
            } else {
                WHITE
            },
            final(self).board == old(self).board,
            final(self).bar == old(self).bar,
            final(self).tray == old(self).tray,
            final(self).same_course(old(self)),
            old(self).wf() ==> final(self).wf(),
    {
        if self.turn == WHITE {
            self.turn = BLACK;
        } else {
            self.turn = WHITE;
        }
    }

    /// Whether the color to move has borne off all its fifteen checkers.
    pub fn has_won(&self) -> (won: bool)
        requires
            self.turn <= 1,
        ensures
            won == (self.tray@[self.turn as int] == 15),
    {
        self.tray[self.turn as usize] == 15
    }

    /// Ends the game once the color to move has borne off all its fifteen
    /// checkers. The winner and the snapshots taken so far are handed out,
    /// for the leaderboard and the replay, and the game is back at the
    /// start. While nobody has won, nothing changes.
    pub fn check_is_over(&mut self) -> (won: Option<(u8, Vec<PreviousMovesBuffer>)>)
        requires
            old(self).turn <= 1,
        ensures
            match won {
                Some(result) => {
                    &&& old(self).tray@[old(self).turn as int] == 15
                    &&& result.0 == old(self).turn
                    &&& result.1@ == old(self).previous_moves@
                    &&& final(self).wf()
                    &&& final(self).fresh()
                    &&& final(self).is_running
                },
                None => {
                    &&& old(self).tray@[old(self).turn as int] != 15
                    &&& *final(self) == *old(self)
                },
            },
    {
        if !self.has_won() {
            return None;
        }
        let winner: u8 = self.turn;
        let mut snapshots: Vec<PreviousMovesBuffer> = Vec::new();
        std::mem::swap(&mut snapshots, &mut self.previous_moves);
        self.reset();
        Some((winner, snapshots))
    }

    /// Back to the standard starting layout, white to move, with nothing
    /// rolled, nothing listed and nothing recorded.
    pub fn reset(&mut self)
        ensures
            final(self).wf(),
            final(self).fresh(),
            final(self).is_running,
    {
        self.board = [17, 0, 0, 0, 0, 5, 0, 3, 0, 0, 0, 20, 5, 0, 0, 0, 18, 0, 20, 0, 0, 0, 0, 2];
        self.turn = WHITE;
        self.roll_result.clear();
        self.moves.clear();
        self.previous_moves.clear();
        self.bar = [0, 0];
        self.tray = [0, 0];
        self.is_over = false;
        self.is_running = true;
        proof {
            lemma_starting_board();
            assert(self.board@ =~= starting_board());
            assert(self.bar@ =~= seq![0u8, 0u8]);
            assert(self.tray@ =~= seq![0u8, 0u8]);
        }
    }

    /// Marks the program as no longer running.
    pub fn quit(&mut self)
        ensures
            !final(self).is_running,
            old(self).wf() ==> final(self).wf(),
            final(self).same_position(old(self)),
            final(self).roll_result == old(self).roll_result,
            final(self).moves == old(self).moves,
            final(self).previous_moves == old(self).previous_moves,
            final(self).is_over == old(self).is_over,
    {
        self.is_running = false;
    }
}

/// In a valid game all checkers of a color are home exactly when none
/// waits on the bar and none stands on a field outside the home quadrant.
pub proof fn lemma_all_home(game: &Game, color: u8)
    requires
        game.wf(),
        color <= 1,
    ensures
        game.all_home(color) <==> (game.bar@[color as int] == 0 && forall|field: int|
            1 <= field <= 24 && !(home_start(color) < field <= home_start(color) + 6)
                ==> #[trigger] game.owner_at(field) != Some(color)),
{
    let board = game.board@;
    let lo = home_start(color);
    lemma_checkers_split(board, color, 0, lo, 24);
    lemma_checkers_split(board, color, lo, lo + 6, 24);
    let outside = checkers_in(board, color, 0, lo) + checkers_in(board, color, lo + 6, 24);
    assert(checkers_on(board, color) == home_checkers(board, color) + outside);
    if forall|field: int|
        1 <= field <= 24 && !(lo < field <= lo + 6) ==> #[trigger] game.owner_at(field) != Some(
            color,
        ) {
        assert forall|i: int| (0 <= i < lo || lo + 6 <= i < 24) implies owner_of(
            #[trigger] board[i],
        ) != Some(color) by {
            assert(game.owner_at(i + 1) != Some(color));
        }
        lemma_checkers_none(board, color, 0, lo);
        lemma_checkers_none(board, color, lo + 6, 24);
    }
    if outside == 0 {
        assert forall|field: int|
            1 <= field <= 24 && !(lo < field <= lo + 6) implies #[trigger] game.owner_at(field)
            != Some(color) by {
            if field <= lo {
                lemma_checkers_bound(board, color, 0, lo, field - 1);
            } else {
                lemma_checkers_bound(board, color, lo + 6, 24, field - 1);
            }
        }
    }
}

/// A range without a field of `color` holds no checker of `color`.
pub proof fn lemma_checkers_none(points: Seq<u8>, color: u8, lo: int, hi: int)
    requires
        forall|i: int| lo <= i < hi ==> owner_of(#[trigger] points[i]) != Some(color),
    ensures
        checkers_in(points, color, lo, hi) == 0,
    decreases hi - lo,
{
    if lo < hi {
        lemma_checkers_none(points, color, lo, hi - 1);
    }
}

} // verus!
