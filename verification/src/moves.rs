//! Legal moves: which pairs of source and destination the rules allow for
//! the color to move, given the pips that are left, and the generator that
//! lists them.

use crate::game::{
    bar_marker, distance, home_field, home_start, landing, lemma_all_home, lemma_farthest_within,
    tray_marker, Game, BLACK, WHITE,
};
use vstd::prelude::*;

verus! {

/// The order in which moves are listed: by source, then by destination.
pub open spec fn precedes(a: (usize, usize), b: (usize, usize)) -> bool {
    a.0 < b.0 || (a.0 == b.0 && a.1 < b.1)
}

/// A list of moves is ascending when each entry precedes all later ones, so
/// that no move is listed twice.
pub open spec fn ascending(moves: Seq<(usize, usize)>) -> bool {
    forall|i: int, j: int| 0 <= i < j < moves.len() ==> precedes(moves[i], moves[j])
}

/// Puts `mv` at its place in an ascending list, unless it is there already.
pub fn insert_move(moves: &mut Vec<(usize, usize)>, mv: (usize, usize))
    requires
        ascending(old(moves)@),
    ensures
        ascending(final(moves)@),
        forall|m: (usize, usize)|
            #[trigger] final(moves)@.contains(m) <==> (old(moves)@.contains(m) || m == mv),
{
    let mut at: usize = 0;
    let mut searching: bool = true;
    while searching && at < moves.len()
        invariant
            at <= moves.len(),
            *moves == *old(moves),
            forall|k: int| 0 <= k < at ==> precedes(#[trigger] moves@[k], mv),
            !searching ==> at < moves.len() && !precedes(moves@[at as int], mv),
        decreases moves.len() - at + if searching { 1nat } else { 0nat },
    {
        let here = moves[at];
        if here.0 < mv.0 || (here.0 == mv.0 && here.1 < mv.1) {
            at = at + 1;
        } else {
            searching = false;
        }
    }
    if at < moves.len() {
        let here = moves[at];
        if here.0 == mv.0 && here.1 == mv.1 {
            assert(moves@[at as int] == mv);
            return;
        }
    }
    moves.insert(at, mv);
    proof {
        let before = old(moves)@;
        let after = moves@;
        assert(after == before.insert(at as int, mv));
        assert forall|i: int, j: int| 0 <= i < j < after.len() implies precedes(
            after[i],
            after[j],
        ) by {
            if j > at {
                assert(after[j] == before[j - 1]);
                if i == at {
                    assert(!precedes(before[at as int], mv));
                    assert(j - 1 > at ==> precedes(before[at as int], before[j - 1]));
                }
            }
        }
        assert forall|m: (usize, usize)|
            after.contains(m) <==> (before.contains(m) || m == mv) by {
            if after.contains(m) {
                let i = choose|i: int| 0 <= i < after.len() && after[i] == m;
                if i < at {
                    assert(before[i] == m);
                } else if i > at {
                    assert(before[i - 1] == m);
                }
            }
            if before.contains(m) {
                let i = choose|i: int| 0 <= i < before.len() && before[i] == m;
                if i < at {
                    assert(after[i] == m);
                } else {
                    assert(after[i + 1] == m);
                }
            }
            if m == mv {
                assert(after[at as int] == m);
            }
        }
    }
}

/// The moves of a list in ascending order, each once.
pub fn sorted_moves(list: &Vec<(usize, usize)>) -> (sorted: Vec<(usize, usize)>)
    ensures
        ascending(sorted@),
        forall|m: (usize, usize)| #[trigger] sorted@.contains(m) <==> list@.contains(m),
{
    let mut sorted: Vec<(usize, usize)> = Vec::new();
    let mut i: usize = 0;
    while i < list.len()
        invariant
            i <= list.len(),
            ascending(sorted@),
            forall|m: (usize, usize)|
                #[trigger] sorted@.contains(m) <==> list@.take(i as int).contains(m),
        decreases list.len() - i,
    {
        proof {
            assert(list@.take(i + 1) =~= list@.take(i as int).push(list@[i as int]));
        }
        let ghost before = sorted@;
        insert_move(&mut sorted, list[i]);
        proof {
            assert forall|m: (usize, usize)|
                #[trigger] sorted@.contains(m) <==> list@.take(i + 1).contains(m) by {
                lemma_push_contains(list@.take(i as int), list@[i as int], m);
                assert(before.contains(m) <==> list@.take(i as int).contains(m));
            }
        }
        i = i + 1;
    }
    proof {
        assert(list@.take(list.len() as int) =~= list@);
    }
    sorted
}

/// Whether the pip number `k` is the first to show its value.
pub open spec fn first_of_value(pips: Seq<u8>, k: int) -> bool {
    forall|j: int| 0 <= j < k ==> #[trigger] pips[j] != pips[k]
}

/// Whether the pip number `k` is the first to show its value.
pub fn first_pip(pips: &Vec<u8>, k: usize) -> (first: bool)
    requires
        k < pips.len(),
    ensures
        first == first_of_value(pips@, k as int),
{
    let mut j: usize = 0;
    while j < k
        invariant
            j <= k < pips.len(),
            forall|i: int| 0 <= i < j ==> #[trigger] pips@[i] != pips@[k as int],
        decreases k - j,
    {
        if pips[j] == pips[k] {
            return false;
        }
        j = j + 1;
    }
    true
}

/// A list with one more entry at its end holds what it held before and the
/// new entry.
pub proof fn lemma_push_contains<T>(list: Seq<T>, entry: T, other: T)
    ensures
        list.push(entry).contains(other) <==> (list.contains(other) || other == entry),
{
    let longer = list.push(entry);
    if list.contains(other) {
        let i = choose|i: int| 0 <= i < list.len() && list[i] == other;
        assert(longer[i] == other);
    }
    if other == entry {
        assert(longer[list.len() as int] == other);
    }
    if longer.contains(other) {
        let i = choose|i: int| 0 <= i < longer.len() && longer[i] == other;
        if i < list.len() {
            assert(list[i] == other);
        }
    }
}

impl Game {
    /// Whether `field` is closed to the color to move: the other color holds
    /// it with two checkers or more.
    pub open spec fn blocked(&self, field: int) -> bool {
        match self.owner_at(field) {
            Some(color) => color != self.turn && self.count_at(field) >= 2,
            None => false,
        }
    }

    /// Whether going from `source` to `destination` is forward for the color
    /// to move: down for white, up for black.
    pub open spec fn heads_home(&self, source: int, destination: int) -> bool {
        if self.turn == WHITE {
            destination < source
        } else {
            destination > source
        }
    }

    /// Whether a checker may be borne off from `source` to `destination`:
    /// the destination is the tray of the color to move and the source is a
    /// field that it holds.
    pub open spec fn can_bear_off(&self, source: int, destination: int) -> bool {
        &&& destination == tray_marker(self.turn)
        &&& 1 <= source <= 24
        &&& self.owner_at(source) == Some(self.turn)
        &&& self.heads_home(source, destination)
    }

    /// Whether a checker may enter from the bar: the source is the bar of
    /// the color to move and the destination is an open field.
    pub open spec fn can_enter(&self, source: int, destination: int) -> bool {
        &&& source == bar_marker(self.turn)
        &&& 1 <= destination <= 24
        &&& !self.blocked(destination)
        &&& self.heads_home(source, destination)
    }

    /// Whether a checker may travel over the board: the source is a field
    /// of the color to move and the destination is an open field ahead.
    pub open spec fn can_travel(&self, source: int, destination: int) -> bool {
        &&& 1 <= source <= 24
        &&& 1 <= destination <= 24
        &&& self.owner_at(source) == Some(self.turn)
        &&& !self.blocked(destination)
        &&& self.heads_home(source, destination)
    }

    /// Whether a checker may go from `source` to a field `destination`.
    /// While the color to move has a checker on the bar, only entering
    /// counts.
    pub open spec fn move_valid(&self, source: int, destination: int) -> bool {
        if self.bar@[self.turn as int] > 0 {
            self.can_enter(source, destination)
        } else {
            self.can_travel(source, destination)
        }
    }

    /// The pip that bearing off spends for a die that shows `pip`: a die
    /// that shows more than the distance of the farthest checker counts as
    /// exactly that distance.
    pub open spec fn bear_off_pip(&self, pip: int) -> int {
        match self.farthest(self.turn) {
            Some(field) => {
                let reach = distance(tray_marker(self.turn), field);
                if pip > reach {
                    reach
                } else {
                    pip
                }
            },
            None => pip,
        }
    }

    /// Whether `pip` takes a checker from `source` to the field
    /// `destination`.
    pub open spec fn pip_travels(&self, pip: int, source: int, destination: int) -> bool {
        &&& destination == landing(self.turn, source, pip)
        &&& 1 <= destination <= 24
        &&& self.move_valid(source, destination)
    }

    /// Whether `pip` bears a checker off from `source`.
    pub open spec fn pip_bears_off(&self, pip: int, source: int, destination: int) -> bool {
        &&& source == home_field(self.turn, self.bear_off_pip(pip))
        &&& 1 <= source <= 24
        &&& self.can_bear_off(source, destination)
    }

    /// Whether one of the remaining pips takes a checker from `source` to the
    /// field `destination`.
    pub open spec fn some_pip_travels(&self, source: int, destination: int) -> bool {
        exists|k: int|
            0 <= k < self.roll_result@.len() && #[trigger] self.pip_travels(
                self.roll_result@[k] as int,
                source,
                destination,
            )
    }

    /// Whether one of the remaining pips bears a checker off from `source`.
    pub open spec fn some_pip_bears_off(&self, source: int, destination: int) -> bool {
        exists|k: int|
            0 <= k < self.roll_result@.len() && #[trigger] self.pip_bears_off(
                self.roll_result@[k] as int,
                source,
                destination,
            )
    }

    /// Whether the pair is a legal move. With a checker on the bar only
    /// entering is legal. Otherwise a checker may travel, and once all are
    /// home a checker may be borne off.
    pub open spec fn legal(&self, source: int, destination: int) -> bool {
        ||| self.some_pip_travels(source, destination)
        ||| (self.bar@[self.turn as int] == 0 && self.all_home(self.turn)
            && self.some_pip_bears_off(source, destination))
    }

    /// Whether the listed moves are the legal ones, in ascending order.
    pub open spec fn moves_current(&self) -> bool {
        &&& ascending(self.moves@)
        &&& forall|m: (usize, usize)|
            self.moves@.contains(m) <==> self.legal(m.0 as int, m.1 as int)
    }

    /// Whether `other` is this game with another list of moves.
    pub open spec fn differs_in_moves(&self, other: &Game) -> bool {
        &&& self.board == other.board
        &&& self.turn == other.turn
        &&& self.roll_result == other.roll_result
        &&& self.previous_moves == other.previous_moves
        &&& self.bar == other.bar
        &&& self.tray == other.tray
        &&& self.is_over == other.is_over
        &&& self.is_running == other.is_running
    }

    /// What is legal does not depend on the list of moves or on anything
    /// else outside the position and the pips.
    pub proof fn lemma_legal_of_position(&self, other: &Game)
        requires
            self.board == other.board,
            self.turn == other.turn,
            self.bar == other.bar,
            self.tray == other.tray,
            self.roll_result@ == other.roll_result@,
        ensures
            forall|s: int, d: int| self.some_pip_travels(s, d) == other.some_pip_travels(s, d),
            forall|s: int, d: int| self.some_pip_bears_off(s, d) == other.some_pip_bears_off(s, d),
            forall|s: int, d: int| self.legal(s, d) == other.legal(s, d),
    {
        assert forall|s: int, d: int| self.some_pip_travels(s, d) == other.some_pip_travels(
            s,
            d,
        ) by {
            if self.some_pip_travels(s, d) {
                let k = choose|k: int|
                    0 <= k < self.roll_result@.len() && #[trigger] self.pip_travels(
                        self.roll_result@[k] as int,
                        s,
                        d,
                    );
                assert(other.pip_travels(other.roll_result@[k] as int, s, d));
            }
            if other.some_pip_travels(s, d) {
                let k = choose|k: int|
                    0 <= k < other.roll_result@.len() && #[trigger] other.pip_travels(
                        other.roll_result@[k] as int,
                        s,
                        d,
                    );
                assert(self.pip_travels(self.roll_result@[k] as int, s, d));
            }
        }
        assert forall|s: int, d: int| self.some_pip_bears_off(s, d) == other.some_pip_bears_off(
            s,
            d,
        ) by {
            if self.some_pip_bears_off(s, d) {
                let k = choose|k: int|
                    0 <= k < self.roll_result@.len() && #[trigger] self.pip_bears_off(
                        self.roll_result@[k] as int,
                        s,
                        d,
                    );
                assert(other.pip_bears_off(other.roll_result@[k] as int, s, d));
            }
            if other.some_pip_bears_off(s, d) {
                let k = choose|k: int|
                    0 <= k < other.roll_result@.len() && #[trigger] other.pip_bears_off(
                        other.roll_result@[k] as int,
                        s,
                        d,
                    );
                assert(self.pip_bears_off(self.roll_result@[k] as int, s, d));
            }
        }
    }

    /// A pip takes a checker only from where the color to move has one: from
    /// the bar while a checker waits there, from a field of its own
    /// otherwise.
    pub proof fn lemma_travel_source(&self, source: int, destination: int)
        requires
            self.some_pip_travels(source, destination),
        ensures
            1 <= destination <= 24,
            self.move_valid(source, destination),
            self.bar@[self.turn as int] > 0 ==> source == bar_marker(self.turn),
            self.bar@[self.turn as int] == 0 ==> 1 <= source <= 24 && self.owner_at(source)
                == Some(self.turn),
    {
    }

    /// Whether a checker of the color to move may be borne off from `source`
    /// to `destination`.
    pub fn validate_home(&self, source: usize, destination: usize) -> (valid: bool)
        ensures
            valid == self.can_bear_off(source as int, destination as int),
    {
        let valid_destination: usize = if self.turn == WHITE { 0 } else { 25 };
        if destination != valid_destination || source < 1 || source > 24 {
            return false;
        }
        if self.board[source - 1] == 0 {
            return false;
        }
        match self.which_color(source) {
            Some(color) => {
                if color != self.turn {
                    return false;
                }
            },
            None => {
                return false;
            },
        }
        if self.turn == WHITE {
            destination < source
        } else {
            destination > source
        }
    }

    /// Whether a checker of the color to move may enter from `source` at
    /// `destination`.
    pub fn validate_bar(&self, source: usize, destination: usize) -> (valid: bool)
        ensures
            valid == self.can_enter(source as int, destination as int),
    {
        let valid_source: usize = if self.turn == WHITE { 25 } else { 0 };
        if source != valid_source || destination < 1 || destination > 24 {
            return false;
        }
        if let Some(color) = self.which_color(destination) {
            if color != self.turn {
                let value: u8 = self.board[destination - 1];
                if !(value == 1 || value == 16) {
                    return false;
                }
            }
        }
        if self.turn == WHITE {
            destination < source
        } else {
            destination > source
        }
    }

    /// Whether a checker of the color to move may go from `source` to the
    /// field `destination`.
    pub fn is_move_valid(&self, source: usize, destination: usize) -> (valid: bool)
        requires
            self.turn <= 1,
        ensures
            valid == self.move_valid(source as int, destination as int),
    {
        if self.bar[self.turn as usize] > 0 {
            return self.validate_bar(source, destination);
        }
        if source < 1 || source > 24 || destination < 1 || destination > 24 {
            return false;
        }
        if self.board[source - 1] == 0 {
            return false;
        }
        match self.which_color(source) {
            Some(color) => {
                if color != self.turn {
                    return false;
                }
            },
            None => {
                return false;
            },
        }
        if let Some(color) = self.which_color(destination) {
            if color != self.turn {
                let value: u8 = self.board[destination - 1];
                if !(value == 1 || value == 16) {
                    return false;
                }
            }
        }
        if self.turn == WHITE {
            destination < source
        } else {
            destination > source
        }
    }

    /// A list of moves after the move that `pip` allows from `source` was
    /// put at its end, if there is such a move.
    pub open spec fn with_travel(
        &self,
        list: Seq<(usize, usize)>,
        pip: int,
        source: int,
    ) -> Seq<(usize, usize)> {
        let destination = landing(self.turn, source, pip);
        if 1 <= destination <= 24 && self.move_valid(source, destination) {
            list.push((source as usize, destination as usize))
        } else {
            list
        }
    }

    /// A list of moves after the bear-off move that `pip` allows was put at
    /// its end, if there is such a move: from the field that the pip names,
    /// or from the farthest checker where the pip shows more than its
    /// distance.
    pub open spec fn with_bear_off(&self, list: Seq<(usize, usize)>, pip: int) -> Seq<
        (usize, usize),
    > {
        let source = home_field(self.turn, self.bear_off_pip(pip));
        let destination = tray_marker(self.turn);
        if 1 <= source <= 24 && self.can_bear_off(source, destination) {
            list.push((source as usize, destination as usize))
        } else {
            list
        }
    }

    /// A list of moves after the moves from `source` were put at its end
    /// that the first `count` of the remaining pips allow, in the order of
    /// the pips. A pip that shows what an earlier pip showed adds nothing.
    pub open spec fn with_travels(
        &self,
        list: Seq<(usize, usize)>,
        source: int,
        count: int,
    ) -> Seq<(usize, usize)>
        decreases count,
    {
        if count <= 0 {
            list
        } else {
            let before = self.with_travels(list, source, count - 1);
            if first_of_value(self.roll_result@, count - 1) {
                self.with_travel(before, self.roll_result@[count - 1] as int, source)
            } else {
                before
            }
        }
    }

    /// A list of moves after the bear-off moves were put at its end that the
    /// first `count` of the remaining pips allow, in the order of the pips.
    /// A pip that shows what an earlier pip showed adds nothing.
    pub open spec fn with_bear_offs(&self, list: Seq<(usize, usize)>, count: int) -> Seq<
        (usize, usize),
    >
        decreases count,
    {
        if count <= 0 {
            list
        } else {
            let before = self.with_bear_offs(list, count - 1);
            if first_of_value(self.roll_result@, count - 1) {
                self.with_bear_off(before, self.roll_result@[count - 1] as int)
            } else {
                before
            }
        }
    }

    /// The moves from `source` that were put at the end of a list are those
    /// that one of the first `count` pips allows from there.
    pub proof fn lemma_with_travels(&self, list: Seq<(usize, usize)>, source: int, count: int)
        requires
            0 <= source <= 25,
            0 <= count <= self.roll_result@.len(),
        ensures
            forall|m: (usize, usize)|
                #[trigger] self.with_travels(list, source, count).contains(m) <==> (list.contains(
                    m,
                ) || (m.0 == source && exists|k: int|
                    0 <= k < count && #[trigger] self.pip_travels(
                        self.roll_result@[k] as int,
                        source,
                        m.1 as int,
                    ))),
        decreases count,
    {
        if count > 0 {
            let pips = self.roll_result@;
            let pip = pips[count - 1] as int;
            let before = self.with_travels(list, source, count - 1);
            let after = self.with_travels(list, source, count);
            let first = first_of_value(pips, count - 1);
            let destination = landing(self.turn, source, pip);
            let valid = 1 <= destination <= 24 && self.move_valid(source, destination);
            self.lemma_with_travels(list, source, count - 1);
            assert forall|m: (usize, usize)|
                after.contains(m) <==> (list.contains(m) || (m.0 == source && exists|k: int|
                    0 <= k < count && #[trigger] self.pip_travels(
                        pips[k] as int,
                        source,
                        m.1 as int,
                    ))) by {
                let earlier = exists|k: int|
                    0 <= k < count - 1 && #[trigger] self.pip_travels(
                        pips[k] as int,
                        source,
                        m.1 as int,
                    );
                let now = exists|k: int|
                    0 <= k < count && #[trigger] self.pip_travels(
                        pips[k] as int,
                        source,
                        m.1 as int,
                    );
                let last = self.pip_travels(pip, source, m.1 as int);
                if earlier {
                    let k = choose|k: int|
                        0 <= k < count - 1 && #[trigger] self.pip_travels(
                            pips[k] as int,
                            source,
                            m.1 as int,
                        );
                    assert(self.pip_travels(pips[k] as int, source, m.1 as int));
                }
                if last {
                    assert(self.pip_travels(pips[count - 1] as int, source, m.1 as int));
                    if !first {
                        let j = choose|j: int|
                            0 <= j < count - 1 && #[trigger] pips[j] == pips[count - 1];
                        assert(self.pip_travels(pips[j] as int, source, m.1 as int));
                    }
                }
                if now {
                    let k = choose|k: int|
                        0 <= k < count && #[trigger] self.pip_travels(
                            pips[k] as int,
                            source,
                            m.1 as int,
                        );
                    if k < count - 1 {
                        assert(earlier);
                    } else {
                        assert(last);
                    }
                }
                assert(now <==> (earlier || last));
                assert(before.contains(m) <==> (list.contains(m) || (m.0 == source && earlier)));
                if first && valid {
                    let pair = (source as usize, destination as usize);
                    assert(after == before.push(pair));
                    lemma_push_contains(before, pair, m);
                    assert(m == pair <==> (m.0 == source && last));
                } else {
                    assert(after == before);
                    assert(last ==> !first);
                }
            }
        }
    }

    /// The moves from `source` that were put at the end of a list are those
    /// that some pip allows from there.
    pub proof fn lemma_travels_listed(&self, list: Seq<(usize, usize)>, source: int)
        requires
            0 <= source <= 25,
        ensures
            forall|m: (usize, usize)|
                #[trigger] self.with_travels(list, source, self.roll_result@.len() as int).contains(
                    m,
                ) <==> (list.contains(m) || (m.0 == source && self.some_pip_travels(
                    source,
                    m.1 as int,
                ))),
    {
        self.lemma_with_travels(list, source, self.roll_result@.len() as int);
    }

    /// The bear-off moves that were put at the end of a list are those that
    /// one of the first `count` pips allows.
    pub proof fn lemma_with_bear_offs(&self, list: Seq<(usize, usize)>, count: int)
        requires
            self.turn <= 1,
            0 <= count <= self.roll_result@.len(),
        ensures
            forall|m: (usize, usize)|
                #[trigger] self.with_bear_offs(list, count).contains(m) <==> (list.contains(m)
                    || exists|k: int|
                    0 <= k < count && #[trigger] self.pip_bears_off(
                        self.roll_result@[k] as int,
                        m.0 as int,
                        m.1 as int,
                    )),
        decreases count,
    {
        if count > 0 {
            let pips = self.roll_result@;
            let pip = pips[count - 1] as int;
            let before = self.with_bear_offs(list, count - 1);
            let after = self.with_bear_offs(list, count);
            let first = first_of_value(pips, count - 1);
            let source = home_field(self.turn, self.bear_off_pip(pip));
            let destination = tray_marker(self.turn);
            let valid = 1 <= source <= 24 && self.can_bear_off(source, destination);
            self.lemma_with_bear_offs(list, count - 1);
            assert forall|m: (usize, usize)|
                after.contains(m) <==> (list.contains(m) || exists|k: int|
                    0 <= k < count && #[trigger] self.pip_bears_off(
                        pips[k] as int,
                        m.0 as int,
                        m.1 as int,
                    )) by {
                let earlier = exists|k: int|
                    0 <= k < count - 1 && #[trigger] self.pip_bears_off(
                        pips[k] as int,
                        m.0 as int,
                        m.1 as int,
                    );
                let now = exists|k: int|
                    0 <= k < count && #[trigger] self.pip_bears_off(
                        pips[k] as int,
                        m.0 as int,
                        m.1 as int,
                    );
                let last = self.pip_bears_off(pip, m.0 as int, m.1 as int);
                if earlier {
                    let k = choose|k: int|
                        0 <= k < count - 1 && #[trigger] self.pip_bears_off(
                            pips[k] as int,
                            m.0 as int,
                            m.1 as int,
                        );
                    assert(self.pip_bears_off(pips[k] as int, m.0 as int, m.1 as int));
                }
                if last {
                    assert(self.pip_bears_off(pips[count - 1] as int, m.0 as int, m.1 as int));
                    if !first {
                        let j = choose|j: int|
                            0 <= j < count - 1 && #[trigger] pips[j] == pips[count - 1];
                        assert(self.pip_bears_off(pips[j] as int, m.0 as int, m.1 as int));
                    }
                }
                if now {
                    let k = choose|k: int|
                        0 <= k < count && #[trigger] self.pip_bears_off(
                            pips[k] as int,
                            m.0 as int,
                            m.1 as int,
                        );
                    if k < count - 1 {
                        assert(earlier);
                    } else {
                        assert(last);
                    }
                }
                assert(now <==> (earlier || last));
                assert(before.contains(m) <==> (list.contains(m) || earlier));
                if first && valid {
                    let pair = (source as usize, destination as usize);
                    assert(after == before.push(pair));
                    lemma_push_contains(before, pair, m);
                    assert(m == pair <==> last);
                } else {
                    assert(after == before);
                    assert(last ==> !first);
                }
            }
        }
    }

    /// The bear-off moves that were put at the end of a list are those that
    /// some pip allows.
    pub proof fn lemma_bear_offs_listed(&self, list: Seq<(usize, usize)>)
        requires
            self.turn <= 1,
        ensures
            forall|m: (usize, usize)|
                #[trigger] self.with_bear_offs(list, self.roll_result@.len() as int).contains(m)
                    <==> (list.contains(m) || self.some_pip_bears_off(m.0 as int, m.1 as int)),
    {
        self.lemma_with_bear_offs(list, self.roll_result@.len() as int);
    }

    /// Puts the move that `dice` allows from `source` at the end of the
    /// list, if there is one: the pair of the source and the field that the
    /// pip leads to, where a checker may go there.
    pub fn add_moves_from_dice(&mut self, source: usize, dice: isize)
        requires
            old(self).turn <= 1,
            source <= 25,
        ensures
            final(self).differs_in_moves(old(self)),
            ({
                let destination = landing(old(self).turn, source as int, dice as int);
                final(self).moves@ == if 1 <= destination <= 24 && old(self).move_valid(
                    source as int,
                    destination,
                ) {
                    old(self).moves@.push((source, destination as usize))
                } else {
                    old(self).moves@
                }
            }),
            final(self).moves@ == old(self).with_travel(
                old(self).moves@,
                dice as int,
                source as int,
            ),
    {
        if dice < -25 || dice > 25 {
            return;
        }
        let dest: isize = if self.turn == WHITE {
            source as isize - dice
        } else {
            source as isize + dice
        };
        if dest >= 1 && dest <= 24 && self.is_move_valid(source, dest as usize) {
            self.moves.push((source, dest as usize));
        }
    }

    /// Puts the moves that the remaining pips allow from `source` at the end
    /// of the list, in the order of the pips. Pips that show the same add
    /// their move once.
    pub fn add_moves_from(&mut self, source: usize)
        requires
            old(self).turn <= 1,
            source <= 25,
        ensures
            final(self).differs_in_moves(old(self)),
            final(self).moves@ == old(self).with_travels(
                old(self).moves@,
                source as int,
                old(self).roll_result@.len() as int,
            ),
    {
        let mut k: usize = 0;
        while k < self.roll_result.len()
            invariant
                k <= self.roll_result.len(),
                source <= 25,
                self.turn <= 1,
                self.differs_in_moves(old(self)),
                self.moves@ == old(self).with_travels(old(self).moves@, source as int, k as int),
            decreases self.roll_result.len() - k,
        {
            if first_pip(&self.roll_result, k) {
                let dice: isize = self.roll_result[k] as isize;
                self.add_moves_from_dice(source, dice);
            }
            k = k + 1;
        }
    }

    /// Puts the bear-off move that `dice` allows to `destination` at the end
    /// of the list, if there is one. A die that shows more than the distance
    /// of the farthest checker counts as exactly that distance, so that it
    /// bears that checker off and never a nearer one.
    pub fn add_moves_to_tray_dice(&mut self, destination: usize, dice: isize)
        requires
            old(self).turn <= 1,
            destination == tray_marker(old(self).turn),
        ensures
            final(self).differs_in_moves(old(self)),
            ({
                let source = home_field(old(self).turn, old(self).bear_off_pip(dice as int));
                final(self).moves@ == if 1 <= source <= 24 && old(self).can_bear_off(
                    source,
                    destination as int,
                ) {
                    old(self).moves@.push((source as usize, destination))
                } else {
                    old(self).moves@
                }
            }),
            final(self).moves@ == old(self).with_bear_off(old(self).moves@, dice as int),
            match old(self).farthest(old(self).turn) {
                Some(field) => {
                    &&& dice > distance(destination as int, field) ==> final(self).moves@ == old(
                        self,
                    ).moves@.push((field as usize, destination))
                    &&& 1 <= dice <= distance(destination as int, field) ==> final(self).moves@
                        == if old(self).owner_at(home_field(old(self).turn, dice as int)) == Some(
                        old(self).turn,
                    ) {
                        old(self).moves@.push(
                            (home_field(old(self).turn, dice as int) as usize, destination),
                        )
                    } else {
                        old(self).moves@
                    }
                },
                None => true,
            },
    {
        proof {
            lemma_farthest_within(self.board@, self.turn, 6);
        }
        let mut dice = dice;
        if let Some(field) = self.farthest_to_tray(self.turn) {
            let reach: isize = if destination >= field {
                (destination - field) as isize
            } else {
                (field - destination) as isize
            };
            if dice > reach {
                dice = reach;
            }
        }
        if dice < 1 || dice > 24 {
            return;
        }
        let src: isize = if self.turn == BLACK {
            destination as isize - dice
        } else {
            destination as isize + dice
        };
        if src >= 1 && src <= 24 && self.validate_home(src as usize, destination) {
            self.moves.push((src as usize, destination));
        }
    }

    /// Puts the bear-off moves that the remaining pips allow at the end of
    /// the list, in the order of the pips. Pips that show the same add their
    /// move once.
    pub fn add_moves_to_tray(&mut self)
        requires
            old(self).turn <= 1,
        ensures
            final(self).differs_in_moves(old(self)),
            final(self).moves@ == old(self).with_bear_offs(
                old(self).moves@,
                old(self).roll_result@.len() as int,
            ),
    {
        let destination: usize = if self.turn == WHITE { 0 } else { 25 };
        let mut k: usize = 0;
        while k < self.roll_result.len()
            invariant
                k <= self.roll_result.len(),
                self.turn <= 1,
                destination == tray_marker(self.turn),
                self.differs_in_moves(old(self)),
                self.moves@ == old(self).with_bear_offs(old(self).moves@, k as int),
            decreases self.roll_result.len() - k,
        {
            if first_pip(&self.roll_result, k) {
                let dice: isize = self.roll_result[k] as isize;
                self.add_moves_to_tray_dice(destination, dice);
            }
            k = k + 1;
        }
    }

    /// Works out the legal moves afresh. With a checker on the bar the moves
    /// from the bar are collected, otherwise the moves from every field of
    /// the color to move and, once all its checkers are home, the moves to
    /// the tray. The collected moves are then put in ascending order, each
    /// once: the list holds a pair exactly when it is a legal move. Nothing
    /// else changes.
    pub fn generate_moves(&mut self)
        requires
            old(self).wf(),
        ensures
            final(self).wf(),
            final(self).differs_in_moves(old(self)),
            final(self).moves_current(),
    {
        self.moves.clear();
        proof {
            self.lemma_legal_of_position(old(self));
        }
        if self.bar[self.turn as usize] > 0 {
            let source: usize = if self.turn == WHITE { 25 } else { 0 };
            let ghost before = *self;
            self.add_moves_from(source);
            proof {
                before.lemma_travels_listed(before.moves@, source as int);
                assert forall|m: (usize, usize)|
                    self.moves@.contains(m) <==> old(self).legal(m.0 as int, m.1 as int) by {
                    if old(self).some_pip_travels(m.0 as int, m.1 as int) {
                        old(self).lemma_travel_source(m.0 as int, m.1 as int);
                    }
                }
            }
        } else {
            let mut source: usize = 1;
            while source <= 24
                invariant
                    1 <= source <= 25,
                    self.wf(),
                    self.differs_in_moves(old(self)),
                    self.bar@[self.turn as int] == 0,
                    forall|m: (usize, usize)|
                        #[trigger] self.moves@.contains(m) <==> (m.0 < source && old(
                            self,
                        ).some_pip_travels(m.0 as int, m.1 as int)),
                decreases 25 - source,
            {
                let ghost before = *self;
                proof {
                    before.lemma_legal_of_position(old(self));
                }
                if self.which_color(source) == Some(self.turn) {
                    self.add_moves_from(source);
                    proof {
                        before.lemma_travels_listed(before.moves@, source as int);
                    }
                } else {
                    proof {
                        assert forall|m: (usize, usize)| m.0 == source implies !old(
                            self,
                        ).some_pip_travels(m.0 as int, m.1 as int) by {
                            if old(self).some_pip_travels(m.0 as int, m.1 as int) {
                                old(self).lemma_travel_source(m.0 as int, m.1 as int);
                            }
                        }
                    }
                }
                source = source + 1;
            }
            proof {
                assert forall|m: (usize, usize)|
                    self.moves@.contains(m) <==> old(self).some_pip_travels(
                        m.0 as int,
                        m.1 as int,
                    ) by {
                    if old(self).some_pip_travels(m.0 as int, m.1 as int) {
                        old(self).lemma_travel_source(m.0 as int, m.1 as int);
                    }
                }
            }
            if self.are_all_home(self.turn) {
                let ghost before = *self;
                proof {
                    before.lemma_legal_of_position(old(self));
                    before.lemma_bear_offs_listed(before.moves@);
                }
                self.add_moves_to_tray();
            }
        }
        assert forall|m: (usize, usize)|
            self.moves@.contains(m) <==> old(self).legal(m.0 as int, m.1 as int) by {}
        let sorted = sorted_moves(&self.moves);
        self.moves = sorted;
        proof {
            self.lemma_legal_of_position(old(self));
        }
    }
}

/// No legal move ends on a field that the other color holds with two
/// checkers or more.
pub proof fn lemma_destination_open(game: &Game, source: int, destination: int)
    requires
        game.wf(),
        game.legal(source, destination),
        1 <= destination <= 24,
    ensures
        !game.blocked(destination),
        !(game.owner_at(destination) == Some((1 - game.turn) as u8) && game.count_at(destination)
            >= 2),
{
    if game.some_pip_travels(source, destination) {
        game.lemma_travel_source(source, destination);
    }
}

/// While the color to move has a checker on the bar, every legal move starts
/// from the bar marker, whatever else could move on the board.
pub proof fn lemma_bar_priority(game: &Game, source: int, destination: int)
    requires
        game.wf(),
        game.bar@[game.turn as int] > 0,
        game.legal(source, destination),
    ensures
        source == bar_marker(game.turn),
        1 <= destination <= 24,
{
    game.lemma_travel_source(source, destination);
}

/// A move to the tray is legal only when all checkers of the color to move
/// are home, and it leaves from a field of that color.
pub proof fn lemma_bear_off_needs_home(game: &Game, source: int, destination: int)
    requires
        game.wf(),
        game.legal(source, destination),
        destination == tray_marker(game.turn),
    ensures
        game.all_home(game.turn),
        game.bar@[game.turn as int] == 0,
        game.owner_at(source) == Some(game.turn),
        1 <= source <= 24,
{
    if game.some_pip_travels(source, destination) {
        game.lemma_travel_source(source, destination);
    }
}

/// Once all checkers of the color to move are home, each remaining pip
/// whose bear-off field holds a checker of that color gives a legal move to
/// the tray.
pub proof fn lemma_home_bears_off(game: &Game, k: int)
    requires
        game.wf(),
        game.all_home(game.turn),
        0 <= k < game.roll_result@.len(),
        game.owner_at(home_field(game.turn, game.bear_off_pip(game.roll_result@[k] as int)))
            == Some(game.turn),
    ensures
        game.legal(
            home_field(game.turn, game.bear_off_pip(game.roll_result@[k] as int)),
            tray_marker(game.turn),
        ),
{
    let pip = game.roll_result@[k] as int;
    let source = home_field(game.turn, game.bear_off_pip(pip));
    lemma_farthest_within(game.board@, game.turn, 6);
    lemma_all_home(game, game.turn);
    assert(1 <= game.bear_off_pip(pip) <= 6);
    assert(game.pip_bears_off(pip, source, tray_marker(game.turn)));
}

/// Moves to the tray are among the legal moves exactly when all checkers of
/// the color to move are home, as long as some remaining pip finds a checker
/// to bear off: one on the field that the pip names, or the farthest one
/// when the pip shows more than its distance.
pub proof fn lemma_bear_off_gating(game: &Game)
    requires
        game.wf(),
        game.all_home(game.turn) ==> exists|k: int|
            0 <= k < game.roll_result@.len() && game.owner_at(
                home_field(game.turn, #[trigger] game.bear_off_pip(game.roll_result@[k] as int)),
            ) == Some(game.turn),
    ensures
        (exists|source: int| #[trigger] game.legal(source, tray_marker(game.turn)))
            <==> game.all_home(game.turn),
{
    if game.all_home(game.turn) {
        let k = choose|k: int|
            0 <= k < game.roll_result@.len() && game.owner_at(
                home_field(game.turn, #[trigger] game.bear_off_pip(game.roll_result@[k] as int)),
            ) == Some(game.turn);
        lemma_home_bears_off(game, k);
    }
    if exists|source: int| #[trigger] game.legal(source, tray_marker(game.turn)) {
        let source = choose|source: int| #[trigger] game.legal(source, tray_marker(game.turn));
        lemma_bear_off_needs_home(game, source, tray_marker(game.turn));
    }
}

/// A single checker of the color to move outside its home quadrant takes
/// every move to the tray out of the legal moves.
pub proof fn lemma_stray_checker_stops_bear_off(game: &Game, field: int, source: int)
    requires
        game.wf(),
        1 <= field <= 24,
        game.owner_at(field) == Some(game.turn),
        !(home_start(game.turn) < field <= home_start(game.turn) + 6),
    ensures
        !game.all_home(game.turn),
        !game.legal(source, tray_marker(game.turn)),
{
    lemma_all_home(game, game.turn);
    if game.legal(source, tray_marker(game.turn)) {
        lemma_bear_off_needs_home(game, source, tray_marker(game.turn));
    }
}

} // verus!
