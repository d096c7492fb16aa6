//! Noughts and crosses played to the end by an exhaustive, memoised game-tree
//! search, with a small linear congruential generator for the opening move.

use std::collections::HashMap;
use std::time::{Duration, Instant, SystemTime, UNIX_EPOCH};
use vstd::prelude::*;

verus! {

/// A reading of the system clock.
#[verifier::external_type_specification]
#[verifier::external_body]
pub struct ExSystemTime(std::time::SystemTime);

/// A reading of the monotonic clock.
#[verifier::external_type_specification]
#[verifier::external_body]
pub struct ExInstant(std::time::Instant);

/// What a square of the board holds.
#[derive(Clone, Copy, Debug)]
pub enum Cell {
    Empty,
    X,
    O,
}

/// The nine squares, row by row.
#[derive(Clone)]
pub struct Board {
    pub cells: [Cell; 9],
}

impl View for Board {
    type V = Seq<Cell>;

    open spec fn view(&self) -> Seq<Cell> {
        self.cells@
    }
}

/// The three squares of winning line `k`: rows, then columns, then diagonals.
pub open spec fn line_cells(k: int) -> (int, int, int) {
    if k == 0 {
        (0, 1, 2)
    } else if k == 1 {
        (3, 4, 5)
    } else if k == 2 {
        (6, 7, 8)
    } else if k == 3 {
        (0, 3, 6)
    } else if k == 4 {
        (1, 4, 7)
    } else if k == 5 {
        (2, 5, 8)
    } else if k == 6 {
        (0, 4, 8)
    } else {
        (2, 4, 6)
    }
}

/// All three squares of line `k` hold `mark`.
pub open spec fn holds_line(cells: Seq<Cell>, mark: Cell, k: int) -> bool {
    let (a, b, c) = line_cells(k);
    cells[a] == mark && cells[b] == mark && cells[c] == mark
}

/// The owner of the first completed line among lines `k..8`, if any.
pub open spec fn first_line_from(cells: Seq<Cell>, k: int) -> Option<Cell>
    decreases 8 - k,
{
    if k < 0 || k >= 8 {
        None
    } else if holds_line(cells, Cell::X, k) {
        Some(Cell::X)
    } else if holds_line(cells, Cell::O, k) {
        Some(Cell::O)
    } else {
        first_line_from(cells, k + 1)
    }
}

/// The owner of the first completed line, if any line is complete.
pub open spec fn winner_spec(cells: Seq<Cell>) -> Option<Cell> {
    first_line_from(cells, 0)
}

/// No square is empty.
pub open spec fn is_full(cells: Seq<Cell>) -> bool {
    forall|i: int| 0 <= i < 9 ==> #[trigger] cells[i] != Cell::Empty
}

/// The board is full and nobody completed a line.
pub open spec fn is_tie_spec(cells: Seq<Cell>) -> bool {
    winner_spec(cells) is None && is_full(cells)
}

/// 1 if square `i` is empty, else 0.
pub open spec fn vacancy(cells: Seq<Cell>, i: int) -> nat {
    if cells[i] == Cell::Empty {
        1
    } else {
        0
    }
}

/// The number of empty squares.
pub open spec fn empty_count(cells: Seq<Cell>) -> nat {
    vacancy(cells, 0) + vacancy(cells, 1) + vacancy(cells, 2) + vacancy(cells, 3) + vacancy(
        cells,
        4,
    ) + vacancy(cells, 5) + vacancy(cells, 6) + vacancy(cells, 7) + vacancy(cells, 8)
}

/// The character that shows a square.
pub open spec fn cell_char(cell: Cell) -> char {
    match cell {
        Cell::Empty => ' ',
        Cell::X => 'X',
        Cell::O => 'O',
    }
}

/// The player who moves after `p`; an empty mark is followed by X.
pub open spec fn opponent_spec(p: Cell) -> Cell {
    match p {
        Cell::X => Cell::O,
        Cell::O => Cell::X,
        Cell::Empty => Cell::X,
    }
}

fn line_squares(k: usize) -> (line: (usize, usize, usize))
    requires
        k < 8,
    ensures
        line_cells(k as int) == (line.0 as int, line.1 as int, line.2 as int),
        line.0 < 9 && line.1 < 9 && line.2 < 9,
{
    match k {
        0 => (0, 1, 2),
        1 => (3, 4, 5),
        2 => (6, 7, 8),
        3 => (0, 3, 6),
        4 => (1, 4, 7),
        5 => (2, 5, 8),
        6 => (0, 4, 8),
        _ => (2, 4, 6),
    }
}

impl Board {
    /// The empty board.
    pub fn new() -> (board: Board)
        ensures
            board@.len() == 9,
            forall|i: int| 0 <= i < 9 ==> #[trigger] board@[i] == Cell::Empty,
    {
        Board { cells: [Cell::Empty; 9] }
    }

    /// The owner of the first completed line, in the order rows, columns,
    /// diagonals; `None` when no line is complete.
    pub fn winner(&self) -> (won: Option<Cell>)
        ensures
            won == winner_spec(self@),
    {
        let mut k: usize = 0;
        while k < 8
            invariant
                k <= 8,
                winner_spec(self@) == first_line_from(self@, k as int),
            decreases 8 - k,
        {
            let (a, b, c) = line_squares(k);
            match (self.cells[a], self.cells[b], self.cells[c]) {
                (Cell::X, Cell::X, Cell::X) => {
                    return Some(Cell::X);
                },
                (Cell::O, Cell::O, Cell::O) => {
                    return Some(Cell::O);
                },
                _ => {},
            }
            k += 1;
        }
        None
    }

    /// Whether the game ended without a winner: every square taken, no line
    /// complete.
    pub fn is_tie(&self) -> (tie: bool)
        ensures
            tie == is_tie_spec(self@),
    {
        if self.winner().is_some() {
            return false;
        }
        let mut i: usize = 0;
        while i < 9
            invariant
                i <= 9,
                forall|j: int| 0 <= j < i ==> #[trigger] self@[j] != Cell::Empty,
            decreases 9 - i,
        {
            if matches!(self.cells[i], Cell::Empty) {
                return false;
            }
            i += 1;
        }
        true
    }

    /// The character that shows square `idx`.
    pub fn cell_to_char(&self, idx: usize) -> (shown: char)
        requires
            idx < 9,
        ensures
            shown == cell_char(self@[idx as int]),
    {
        match self.cells[idx] {
            Cell::Empty => ' ',
            Cell::X => 'X',
            Cell::O => 'O',
        }
    }

    /// The indices of the empty squares, in increasing order.
    pub fn available_moves(&self) -> (moves: Vec<usize>)
        ensures
            lists_empties(self@, moves@),
            moves@.len() == empty_count(self@),
    {
        let mut v: Vec<usize> = Vec::with_capacity(9);
        let mut i: usize = 0;
        while i < 9
            invariant
                i <= 9,
                forall|k: int| 0 <= k < v@.len() ==> #[trigger] v@[k] < i && self@[v@[k] as int] == Cell::Empty,
                forall|j: int, k: int| 0 <= j < k < v@.len() ==> v@[j] < v@[k],
                forall|p: int| 0 <= p < i && self@[p] == Cell::Empty ==> v@.contains(p as usize),
                v@.len() == empties_before(self@, i as int),
            decreases 9 - i,
        {
            if matches!(self.cells[i], Cell::Empty) {
                let ghost before = v@;
                v.push(i);
                assert(v@[before.len() as int] == i);
                assert forall|p: int| 0 <= p < i + 1 && self@[p] == Cell::Empty implies v@.contains(
                    p as usize,
                ) by {
                    if p < i {
                        let k = choose|k: int| 0 <= k < before.len() && before[k] == p as usize;
                        assert(v@[k] == p as usize);
                    }
                }
            }
            i += 1;
        }
        proof {
            reveal_with_fuel(empties_before, 10);
        }
        v
    }

    /// The board with `mark` written on square `pos`.
    pub fn with_move(&self, pos: usize, mark: Cell) -> (next: Board)
        requires
            pos < 9,
        ensures
            next@ == self@.update(pos as int, mark),
    {
        let mut cells = self.cells;
        cells[pos] = mark;
        Board { cells }
    }
}

/// The number of empty squares among the first `n`.
spec fn empties_before(cells: Seq<Cell>, n: int) -> nat
    decreases n,
{
    if n <= 0 {
        0
    } else {
        empties_before(cells, n - 1) + vacancy(cells, n - 1)
    }
}

/// The player who moves after `p`.
pub fn opponent(p: Cell) -> (other: Cell)
    ensures
        other == opponent_spec(p),
{
    match p {
        Cell::X => Cell::O,
        Cell::O => Cell::X,
        Cell::Empty => Cell::X,
    }
}

/// The ternary digit of a square: empty 0, X 1, O 2.
pub open spec fn cell_digit(c: Cell) -> nat {
    match c {
        Cell::Empty => 0,
        Cell::X => 1,
        Cell::O => 2,
    }
}

/// The first `n` squares read as a ternary number, square 0 leading.
pub open spec fn ternary(cells: Seq<Cell>, n: int) -> nat
    decreases n,
{
    if n <= 0 {
        0
    } else {
        ternary(cells, n - 1) * 3 + cell_digit(cells[n - 1])
    }
}

/// The low bit of a key: 1 when O is to move, else 0.
pub open spec fn mover_bit(player: Cell) -> nat {
    match player {
        Cell::O => 1,
        _ => 0,
    }
}

/// The key of a position: the nine squares in ternary, doubled, plus the
/// mover's bit.
pub open spec fn encode_spec(cells: Seq<Cell>, player: Cell) -> nat {
    ternary(cells, 9) * 2 + mover_bit(player)
}

/// Three to the power `n`.
spec fn pow3(n: int) -> nat
    decreases n,
{
    if n <= 0 {
        1
    } else {
        3 * pow3(n - 1)
    }
}

proof fn lemma_ternary_below_pow3(cells: Seq<Cell>, n: int)
    requires
        0 <= n,
    ensures
        ternary(cells, n) < pow3(n),
    decreases n,
{
    if n > 0 {
        lemma_ternary_below_pow3(cells, n - 1);
    }
}

proof fn lemma_ternary_injective(first: Seq<Cell>, second: Seq<Cell>, n: int)
    requires
        0 <= n,
        ternary(first, n) == ternary(second, n),
    ensures
        forall|i: int| 0 <= i < n ==> first[i] == second[i],
    decreases n,
{
    if n > 0 {
        let a = ternary(first, n - 1);
        let b = ternary(second, n - 1);
        let d = cell_digit(first[n - 1]);
        let e = cell_digit(second[n - 1]);
        assert(a * 3 + d == b * 3 + e);
        assert(d < 3 && e < 3);
        assert(a == b && d == e);
        lemma_ternary_injective(first, second, n - 1);
    }
}

/// Keys are below 2 * 3^9.
pub proof fn lemma_encode_bound(cells: Seq<Cell>, player: Cell)
    ensures
        encode_spec(cells, player) < 39366,
{
    lemma_ternary_below_pow3(cells, 9);
    reveal_with_fuel(pow3, 10);
}

/// Two positions with a player to move share a key only if they are the same
/// position with the same player to move.
pub proof fn lemma_encode_injective(first: Seq<Cell>, mover: Cell, second: Seq<Cell>, other: Cell)
    requires
        first.len() == 9,
        second.len() == 9,
        mover != Cell::Empty,
        other != Cell::Empty,
        encode_spec(first, mover) == encode_spec(second, other),
    ensures
        first == second,
        mover == other,
{
    let a = ternary(first, 9);
    let b = ternary(second, 9);
    assert(a * 2 + mover_bit(mover) == b * 2 + mover_bit(other));
    assert(a == b);
    lemma_ternary_injective(first, second, 9);
    assert(first =~= second);
}

/// The key under which the search remembers a position.
pub fn encode_board(board: &Board, player: Cell) -> (key: u32)
    ensures
        key == encode_spec(board@, player),
        key < 39366,
{
    let mut v: u32 = 0;
    let mut i: usize = 0;
    while i < 9
        invariant
            i <= 9,
            v == ternary(board@, i as int),
            v < pow3(i as int),
        decreases 9 - i,
    {
        proof {
            reveal_with_fuel(pow3, 10);
        }
        let d: u32 = match board.cells[i] {
            Cell::Empty => 0u32,
            Cell::X => 1u32,
            Cell::O => 2u32,
        };
        v = v * 3 + d;
        i += 1;
    }
    proof {
        reveal_with_fuel(pow3, 10);
    }
    let p: u32 = match player {
        Cell::X => 0u32,
        Cell::O => 1u32,
        Cell::Empty => 0u32,
    };
    v * 2 + p
}

/// One step of the generator: multiply, add, keep the low 64 bits.
pub open spec fn lcg_step(state: u64) -> u64 {
    ((state as int * 6364136223846793005 + 1442695040888963407) % 0x1_0000_0000_0000_0000) as u64
}

/// A 64-bit linear congruential generator.
pub struct SimpleRng {
    pub state: u64,
}

impl SimpleRng {
    /// A generator whose state is the seed with its lowest bit set.
    pub fn new(seed: u64) -> (rng: SimpleRng)
        ensures
            rng.state == seed | 1,
    {
        SimpleRng { state: seed | 1 }
    }

    /// Advances the state by one step and returns it.
    pub fn next(&mut self) -> (drawn: u64)
        ensures
            drawn == lcg_step(old(self).state),
            final(self).state == drawn,
    {
        let ghost s = self.state as int;
        let product = self.state.wrapping_mul(6364136223846793005);
        self.state = product.wrapping_add(1442695040888963407);
        assert(self.state == lcg_step(s as u64)) by {
            let m = 0x1_0000_0000_0000_0000int;
            let a = s * 6364136223846793005;
            assert(a >= 0) by (nonlinear_arith)
                requires
                    s >= 0,
                    a == s * 6364136223846793005,
            ;
            assert(product as int == a % m);
            vstd::arithmetic::div_mod::lemma_add_mod_noop(a, 1442695040888963407, m);
            vstd::arithmetic::div_mod::lemma_small_mod(1442695040888963407, m as nat);
            let t = a % m + 1442695040888963407;
            if t >= m {
                vstd::arithmetic::div_mod::lemma_mod_sub_multiples_vanish(t, m);
                vstd::arithmetic::div_mod::lemma_small_mod((t - m) as nat, m as nat);
            } else {
                vstd::arithmetic::div_mod::lemma_small_mod(t as nat, m as nat);
            }
        }
        self.state
    }
}

/// `moves` holds exactly the empty squares of `cells`, in increasing order.
pub open spec fn lists_empties(cells: Seq<Cell>, moves: Seq<usize>) -> bool {
    &&& forall|k: int|
        0 <= k < moves.len() ==> #[trigger] moves[k] < 9 && cells[moves[k] as int] == Cell::Empty
    &&& forall|j: int, k: int| 0 <= j < k < moves.len() ==> moves[j] < moves[k]
    &&& forall|i: int| 0 <= i < 9 && cells[i] == Cell::Empty ==> moves.contains(i as usize)
}

/// The value of a position for the player about to move, under best play by
/// both sides: 1 a win, 0 a draw, -1 a loss. A completed line decides the
/// game; a full board without one is a draw; otherwise the mover takes the
/// reply that is worst for the opponent.
pub open spec fn outcome(cells: Seq<Cell>, player: Cell) -> int
    decreases empty_count(cells), 10int,
{
    if cells.len() != 9 || player == Cell::Empty {
        0
    } else {
        match winner_spec(cells) {
            Some(w) => if w == player {
                1
            } else {
                -1
            },
            None => if is_full(cells) {
                0
            } else {
                best_reply_from(cells, player, 0)
            },
        }
    }
}

/// The best value the mover can reach by playing on an empty square at or
/// after `pos`; -128 when there is none.
pub open spec fn best_reply_from(cells: Seq<Cell>, player: Cell, pos: int) -> int
    decreases empty_count(cells), 9 - pos,
{
    if cells.len() != 9 || player == Cell::Empty || pos < 0 || pos >= 9 {
        -128
    } else {
        let rest = best_reply_from(cells, player, pos + 1);
        if cells[pos] == Cell::Empty {
            let here = -outcome(cells.update(pos, player), opponent_spec(player));
            if here > rest {
                here
            } else {
                rest
            }
        } else {
            rest
        }
    }
}

/// What the mover gets by playing on `pos`.
pub open spec fn reply_value(cells: Seq<Cell>, player: Cell, pos: int) -> int {
    -outcome(cells.update(pos, player), opponent_spec(player))
}

/// What the search has remembered is right: every key of a position holds
/// that position's value.
pub open spec fn cache_sound(cache: Map<u32, i8>) -> bool {
    forall|cells: Seq<Cell>, player: Cell|
        cells.len() == 9 && player != Cell::Empty && cache.contains_key(
            #[trigger] encode_spec(cells, player) as u32,
        ) ==> cache[encode_spec(cells, player) as u32] as int == outcome(cells, player)
}

/// Square `moves[k]`, or 9 past the end of the list.
spec fn square_at(moves: Seq<usize>, k: int) -> int {
    if 0 <= k < moves.len() {
        moves[k] as int
    } else {
        9
    }
}

/// A mark on an empty square leaves one empty square less.
pub proof fn lemma_move_fills(cells: Seq<Cell>, pos: int, mark: Cell)
    requires
        cells.len() == 9,
        0 <= pos < 9,
        cells[pos] == Cell::Empty,
        mark != Cell::Empty,
    ensures
        cells.update(pos, mark).len() == 9,
        empty_count(cells.update(pos, mark)) + 1 == empty_count(cells),
{
}

/// Only X or O can own a line.
pub proof fn lemma_winner_is_player(cells: Seq<Cell>)
    ensures
        winner_spec(cells) is Some ==> winner_spec(cells) != Some(Cell::Empty),
{
    reveal_with_fuel(first_line_from, 9);
}

/// The value of every position is -1, 0 or 1.
pub proof fn lemma_outcome_range(cells: Seq<Cell>, player: Cell)
    ensures
        -1 <= outcome(cells, player) <= 1,
    decreases empty_count(cells), 10int,
{
    if cells.len() == 9 && player != Cell::Empty && winner_spec(cells) is None && !is_full(cells) {
        lemma_best_reply_range(cells, player, 0);
    }
}

/// The best reply is worth -1, 0 or 1 where an empty square is left to play
/// on, and -128 where none is.
pub proof fn lemma_best_reply_range(cells: Seq<Cell>, player: Cell, pos: int)
    requires
        cells.len() == 9,
        player != Cell::Empty,
        0 <= pos <= 9,
    ensures
        best_reply_from(cells, player, pos) == -128 || -1 <= best_reply_from(cells, player, pos)
            <= 1,
        forall|i: int|
            pos <= i < 9 && #[trigger] cells[i] == Cell::Empty ==> best_reply_from(
                cells,
                player,
                pos,
            ) >= -1,
    decreases empty_count(cells), 9 - pos,
{
    if pos < 9 {
        lemma_best_reply_range(cells, player, pos + 1);
        if cells[pos] == Cell::Empty {
            lemma_move_fills(cells, pos, player);
            lemma_outcome_range(cells.update(pos, player), opponent_spec(player));
        }
    }
}

proof fn lemma_best_reply_skips_taken(cells: Seq<Cell>, player: Cell, a: int, b: int)
    requires
        0 <= a <= b <= 9,
        forall|i: int| a <= i < b ==> #[trigger] cells[i] != Cell::Empty,
    ensures
        best_reply_from(cells, player, a) == best_reply_from(cells, player, b),
    decreases b - a,
{
    if a < b {
        assert(cells[a] != Cell::Empty);
        lemma_best_reply_skips_taken(cells, player, a + 1, b);
    }
}

/// Between two neighbours of the list of empty squares, and before the first
/// and after the last, every square is taken.
proof fn lemma_gap_is_taken(cells: Seq<Cell>, moves: Seq<usize>, k: int)
    requires
        cells.len() == 9,
        lists_empties(cells, moves),
        0 <= k <= moves.len(),
    ensures
        forall|i: int|
            (if k == 0 {
                0
            } else {
                moves[k - 1] + 1
            }) <= i < square_at(moves, k) ==> #[trigger] cells[i] != Cell::Empty,
        0 <= (if k == 0 {
            0
        } else {
            moves[k - 1] + 1
        }) <= square_at(moves, k) <= 9,
{
    let lo = if k == 0 {
        0
    } else {
        moves[k - 1] + 1
    };
    assert forall|i: int| lo <= i < square_at(moves, k) implies #[trigger] cells[i]
        != Cell::Empty by {
        if cells[i] == Cell::Empty {
            assert(moves.contains(i as usize));
            let j = choose|j: int| 0 <= j < moves.len() && moves[j] == i as usize;
            if j < k - 1 {
                assert(moves[j] < moves[k - 1]);
            } else if j > k {
                assert(moves[k] < moves[j]);
            }
        }
    }
    if 0 < k < moves.len() {
        assert(moves[k - 1] < moves[k]);
    }
}

proof fn lemma_submap_chain(a: Map<u32, i8>, b: Map<u32, i8>, c: Map<u32, i8>)
    requires
        a.submap_of(b),
        b.submap_of(c),
    ensures
        a.submap_of(c),
{
    assert forall|k: u32| #[trigger] a.dom().contains(k) implies c.dom().contains(k) && a[k]
        == c[k] by {
        assert(b.dom().contains(k));
    }
}

/// Searches the game tree below a position and returns its value for the
/// player about to move, remembering the value of every undecided position
/// it has worked out. What was remembered before stays as it was.
pub fn minimax(board: &Board, player: Cell, cache: &mut HashMap<u32, i8>) -> (score: i8)
    requires
        player != Cell::Empty,
        cache_sound(old(cache)@),
    ensures
        score == outcome(board@, player),
        cache_sound(final(cache)@),
        old(cache)@.submap_of(final(cache)@),
        winner_spec(board@) is None && !is_full(board@) ==> final(cache)@.contains_key(
            encode_spec(board@, player) as u32,
        ),
    decreases empty_count(board@),
{
    proof {
        lemma_winner_is_player(board@);
    }
    if let Some(w) = board.winner() {
        return match w {
            Cell::X => {
                if matches!(player, Cell::X) {
                    1
                } else {
                    -1
                }
            },
            Cell::O => {
                if matches!(player, Cell::O) {
                    1
                } else {
                    -1
                }
            },
            _ => 0,
        };
    }
    if board.is_tie() {
        return 0;
    }
    let key = encode_board(board, player);
    match cache.get(&key) {
        Some(s) => {
            return *s;
        },
        None => {},
    }
    let moves = board.available_moves();
    let mut best: i8 = i8::MIN;
    let mut k: usize = 0;
    proof {
        lemma_gap_is_taken(board@, moves@, 0);
        lemma_best_reply_skips_taken(board@, player, 0, square_at(moves@, 0));
        lemma_best_reply_range(board@, player, square_at(moves@, 0));
    }
    while k < moves.len()
        invariant_except_break
            best == -128 || -1 <= best <= 0,
        invariant
            k <= moves.len(),
            board@.len() == 9,
            player != Cell::Empty,
            lists_empties(board@, moves@),
            cache_sound(cache@),
            old(cache)@.submap_of(cache@),
            best_reply_from(board@, player, 0) == if best > best_reply_from(
                board@,
                player,
                square_at(moves@, k as int),
            ) {
                best as int
            } else {
                best_reply_from(board@, player, square_at(moves@, k as int))
            },
        ensures
            best == best_reply_from(board@, player, 0),
            cache_sound(cache@),
            old(cache)@.submap_of(cache@),
        decreases moves.len() - k,
    {
        let pos = moves[k];
        let next = board.with_move(pos, player);
        proof {
            lemma_move_fills(board@, pos as int, player);
            lemma_outcome_range(next@, opponent_spec(player));
            lemma_gap_is_taken(board@, moves@, k + 1);
            lemma_best_reply_skips_taken(
                board@,
                player,
                pos + 1,
                square_at(moves@, k + 1),
            );
            lemma_best_reply_range(board@, player, pos + 1);
        }
        let ghost before = cache@;
        let score = -minimax(&next, opponent(player), cache);
        proof {
            lemma_submap_chain(old(cache)@, before, cache@);
        }
        if score > best {
            best = score;
        }
        k += 1;
        if best == 1 {
            break;
        }
    }
    let ghost searched = cache@;
    cache.insert(key, best);
    proof {
        assert(searched.contains_key(key) ==> searched[key] == best) by {
            assert(encode_spec(board@, player) as u32 == key);
        }
        assert(searched.submap_of(cache@));
        lemma_submap_chain(old(cache)@, searched, cache@);
        assert forall|cells: Seq<Cell>, p: Cell|
            cells.len() == 9 && p != Cell::Empty && cache@.contains_key(
                #[trigger] encode_spec(cells, p) as u32,
            ) implies cache@[encode_spec(cells, p) as u32] as int == outcome(cells, p) by {
            lemma_encode_bound(cells, p);
            if encode_spec(cells, p) as u32 == key {
                lemma_encode_injective(cells, p, board@, player);
            }
        }
    }
    best
}

/// The first empty square at or after `pos`; 9 when there is none.
pub open spec fn first_empty_from(cells: Seq<Cell>, pos: int) -> int
    decreases 9 - pos,
{
    if pos < 0 || pos >= 9 {
        9
    } else if cells[pos] == Cell::Empty {
        pos
    } else {
        first_empty_from(cells, pos + 1)
    }
}

/// The first empty square at or after `pos` on which the mover does not
/// lose; 9 when there is none.
pub open spec fn first_safe_from(cells: Seq<Cell>, player: Cell, pos: int) -> int
    decreases 9 - pos,
{
    if pos < 0 || pos >= 9 {
        9
    } else if cells[pos] == Cell::Empty && reply_value(cells, player, pos) >= 0 {
        pos
    } else {
        first_safe_from(cells, player, pos + 1)
    }
}

/// The move of the player who would rather draw than win: the first empty
/// square on which the mover does not lose; failing that, the first empty
/// square; on a full board, none.
pub open spec fn best_move_spec(cells: Seq<Cell>, player: Cell) -> Option<usize> {
    let safe = first_safe_from(cells, player, 0);
    let open = first_empty_from(cells, 0);
    if 0 <= safe < 9 {
        Some(safe as usize)
    } else if 0 <= open < 9 {
        Some(open as usize)
    } else {
        None
    }
}

proof fn lemma_first_empty_skips_taken(cells: Seq<Cell>, a: int, b: int)
    requires
        0 <= a <= b <= 9,
        forall|i: int| a <= i < b ==> #[trigger] cells[i] != Cell::Empty,
    ensures
        first_empty_from(cells, a) == first_empty_from(cells, b),
    decreases b - a,
{
    if a < b {
        assert(cells[a] != Cell::Empty);
        lemma_first_empty_skips_taken(cells, a + 1, b);
    }
}

proof fn lemma_first_safe_skips_taken(cells: Seq<Cell>, player: Cell, a: int, b: int)
    requires
        0 <= a <= b <= 9,
        forall|i: int| a <= i < b ==> #[trigger] cells[i] != Cell::Empty,
    ensures
        first_safe_from(cells, player, a) == first_safe_from(cells, player, b),
    decreases b - a,
{
    if a < b {
        assert(cells[a] != Cell::Empty);
        lemma_first_safe_skips_taken(cells, player, a + 1, b);
    }
}

/// A chosen move is an empty square, and a move is chosen whenever one is
/// empty.
pub proof fn lemma_best_move_is_empty(cells: Seq<Cell>, player: Cell)
    ensures
        match best_move_spec(cells, player) {
            Some(pos) => pos < 9 && cells[pos as int] == Cell::Empty,
            None => is_full(cells),
        },
{
    lemma_first_safe_lands(cells, player, 0);
    lemma_first_empty_lands(cells, 0);
}

proof fn lemma_first_empty_lands(cells: Seq<Cell>, pos: int)
    requires
        0 <= pos <= 9,
    ensures
        pos <= first_empty_from(cells, pos) <= 9,
        first_empty_from(cells, pos) < 9 ==> cells[first_empty_from(cells, pos)] == Cell::Empty,
        forall|i: int| pos <= i < first_empty_from(cells, pos) ==> #[trigger] cells[i] != Cell::Empty,
    decreases 9 - pos,
{
    if pos < 9 && cells[pos] != Cell::Empty {
        lemma_first_empty_lands(cells, pos + 1);
    }
}

proof fn lemma_first_safe_lands(cells: Seq<Cell>, player: Cell, pos: int)
    requires
        0 <= pos <= 9,
    ensures
        pos <= first_safe_from(cells, player, pos) <= 9,
        first_safe_from(cells, player, pos) < 9 ==> cells[first_safe_from(cells, player, pos)]
            == Cell::Empty,
    decreases 9 - pos,
{
    if pos < 9 && !(cells[pos] == Cell::Empty && reply_value(cells, player, pos) >= 0) {
        lemma_first_safe_lands(cells, player, pos + 1);
    }
}

/// Picks the mover's square, trying the empty squares in increasing order
/// and stopping at the first that secures a draw.
pub fn choose_best_move(board: &Board, player: Cell, cache: &mut HashMap<u32, i8>) -> (chosen:
    Option<usize>)
    requires
        player != Cell::Empty,
        cache_sound(old(cache)@),
    ensures
        chosen == best_move_spec(board@, player),
        cache_sound(final(cache)@),
        old(cache)@.submap_of(final(cache)@),
{
    let mut best_score: i8 = i8::MIN;
    let mut best_move: Option<usize> = None;
    let moves = board.available_moves();
    let mut k: usize = 0;
    proof {
        lemma_gap_is_taken(board@, moves@, 0);
        lemma_first_safe_skips_taken(board@, player, 0, square_at(moves@, 0));
        lemma_first_empty_skips_taken(board@, 0, square_at(moves@, 0));
        lemma_first_empty_lands(board@, square_at(moves@, 0));
    }
    while k < moves.len()
        invariant_except_break
            ({
                ||| {
                    &&& first_safe_from(board@, player, 0) == first_safe_from(
                        board@,
                        player,
                        square_at(moves@, k as int),
                    )
                    &&& k == 0 ==> best_score == -128 && best_move is None
                    &&& k > 0 ==> best_score == -1 && best_move == Some(moves@[0])
                }
                ||| {
                    &&& best_score == 1
                    &&& 0 <= first_safe_from(board@, player, 0) < 9
                    &&& best_move == Some(first_safe_from(board@, player, 0) as usize)
                }
            }),
        invariant
            k <= moves.len(),
            board@.len() == 9,
            player != Cell::Empty,
            lists_empties(board@, moves@),
            cache_sound(cache@),
            old(cache)@.submap_of(cache@),
            first_empty_from(board@, 0) == square_at(moves@, 0),
        ensures
            best_move == best_move_spec(board@, player),
            cache_sound(cache@),
            old(cache)@.submap_of(cache@),
        decreases moves.len() - k,
    {
        let pos = moves[k];
        let next = board.with_move(pos, player);
        proof {
            lemma_move_fills(board@, pos as int, player);
            lemma_outcome_range(next@, opponent_spec(player));
            lemma_gap_is_taken(board@, moves@, k + 1);
            lemma_first_safe_skips_taken(board@, player, pos + 1, square_at(moves@, k + 1));
            lemma_first_safe_lands(board@, player, 0);
        }
        let ghost before = cache@;
        let score = -minimax(&next, opponent(player), cache);
        proof {
            lemma_submap_chain(old(cache)@, before, cache@);
        }
        assert(score == reply_value(board@, player, pos as int));
        if score > best_score {
            best_score = score;
            best_move = Some(pos);
        }
        k += 1;
        if best_score == 0 {
            break;
        }
    }
    best_move
}

/// The board with every square empty.
pub open spec fn empty_cells() -> Seq<Cell> {
    Seq::new(9, |i: int| Cell::Empty)
}

/// The board at the end of the game in which the players, starting with
/// `player`, take turns playing the chosen move until no square is empty.
pub open spec fn play_out(cells: Seq<Cell>, player: Cell) -> Seq<Cell>
    decreases empty_count(cells),
{
    if cells.len() != 9 || player == Cell::Empty {
        cells
    } else {
        match best_move_spec(cells, player) {
            Some(pos) => if pos < 9 && cells[pos as int] == Cell::Empty {
                play_out(cells.update(pos as int, player), opponent_spec(player))
            } else {
                cells
            },
            None => cells,
        }
    }
}

/// The final board of the game that X opens on `square` and both players
/// then play out.
pub open spec fn game_from_opening(square: int) -> Seq<Cell> {
    play_out(empty_cells().update(square, Cell::X), Cell::O)
}

/// The opening square that a seed selects: the generator's first draw,
/// reduced modulo nine.
pub open spec fn opening_square(seed: u64) -> int {
    ((lcg_step(seed | 1) as usize) % 9) as int
}

/// A game that is played out leaves no square empty.
pub proof fn lemma_play_out_is_full(cells: Seq<Cell>, player: Cell)
    requires
        cells.len() == 9,
        player != Cell::Empty,
    ensures
        play_out(cells, player).len() == 9,
        is_full(play_out(cells, player)),
    decreases empty_count(cells),
{
    lemma_best_move_is_empty(cells, player);
    match best_move_spec(cells, player) {
        Some(pos) => {
            lemma_move_fills(cells, pos as int, player);
            lemma_play_out_is_full(cells.update(pos as int, player), opponent_spec(player));
        },
        None => {},
    }
}

/// On the empty board the list of empty squares is 0, 1, ..., 8.
proof fn lemma_all_squares_listed(cells: Seq<Cell>, moves: Seq<usize>)
    requires
        cells.len() == 9,
        lists_empties(cells, moves),
        moves.len() == 9,
    ensures
        forall|k: int| 0 <= k < 9 ==> #[trigger] moves[k] == k,
{
    assert(moves[0] < moves[1]);
    assert(moves[1] < moves[2]);
    assert(moves[2] < moves[3]);
    assert(moves[3] < moves[4]);
    assert(moves[4] < moves[5]);
    assert(moves[5] < moves[6]);
    assert(moves[6] < moves[7]);
    assert(moves[7] < moves[8]);
    assert(moves[8] < 9);
}

/// `std::time::SystemTime::now`: the system clock's reading. Nothing is
/// claimed of it.
#[verifier::external_body]
fn system_time_now() -> (now: SystemTime) {
    SystemTime::now()
}

/// `std::time::SystemTime::duration_since` the Unix epoch: how long after
/// the epoch the reading lies, or `None` for a reading before it.
#[verifier::external_body]
fn since_unix_epoch(time: &SystemTime) -> (elapsed: Option<Duration>) {
    time.duration_since(UNIX_EPOCH).ok()
}

/// `std::time::Instant::now`: the monotonic clock's reading. Nothing is
/// claimed of it.
#[verifier::external_body]
fn instant_now() -> (now: Instant) {
    Instant::now()
}

/// `std::time::Instant::elapsed`: the time that has passed since the
/// reading. Nothing is claimed of it.
#[verifier::external_body]
fn instant_elapsed(start: &Instant) -> (elapsed: Duration) {
    start.elapsed()
}

/// `std::time::Duration::as_nanos`: the whole duration in nanoseconds.
#[verifier::external_body]
fn duration_nanos(duration: &Duration) -> (nanos: u128) {
    duration.as_nanos()
}

fn low_64_bits(value: u128) -> (low: u64)
    ensures
        low == value % 0x1_0000_0000_0000_0000,
{
    assert(value & 0xffff_ffff_ffff_ffff == value % 0x1_0000_0000_0000_0000) by (bit_vector);
    assert(value & 0xffff_ffff_ffff_ffff <= 0xffff_ffff_ffff_ffff) by (bit_vector);
    (value & 0xffff_ffff_ffff_ffff) as u64
}

/// Folds two clock readings and a caller's value into a seed.
pub fn mix_seed(now: u64, jitter: u64, extra: u64) -> (seed: u64)
    ensures
        seed == now ^ jitter ^ extra,
{
    now ^ jitter ^ extra
}

/// A seed drawn from the clocks and `extra`: the nanoseconds since the Unix
/// epoch (0 where the clock stands before it), the nanoseconds it takes to
/// read the monotonic clock, and `extra`, folded by `mix_seed`. It differs
/// from call to call.
pub fn seed_from_time(extra: u64) -> (seed: u64) {
    let reading = system_time_now();
    let now = match since_unix_epoch(&reading) {
        Some(elapsed) => low_64_bits(duration_nanos(&elapsed)),
        None => 0,
    };
    let start = instant_now();
    let jitter = low_64_bits(duration_nanos(&instant_elapsed(&start)));
    mix_seed(now, jitter, extra)
}

/// Plays one whole game on `board`: X opens on the square that the seed
/// selects, then both players play their chosen moves until the board is
/// full. Without a seed the opening square is drawn from the clock.
pub fn play_perfect_game(board: &mut Board, seed: Option<u64>)
    ensures
        seed matches Some(s) ==> final(board)@ == game_from_opening(opening_square(s)),
        exists|square: int| 0 <= square < 9 && final(board)@ == #[trigger] game_from_opening(square),
        is_full(final(board)@),
        (forall|square: int|
            0 <= square < 9 ==> #[trigger] outcome(empty_cells().update(square, Cell::X), Cell::O)
                == 0) ==> is_tie_spec(final(board)@),
{
    *board = Board::new();
    let mut cache: HashMap<u32, i8> = HashMap::with_capacity(20000);
    let seed_value = match seed {
        Some(s) => s,
        None => seed_from_time(0),
    };
    let mut rng = SimpleRng::new(seed_value);

    let mut player = Cell::X;
    let avail = board.available_moves();
    let drawn = rng.next();
    let idx = (drawn as usize) % avail.len();
    let pos = avail[idx];
    proof {
        lemma_all_squares_listed(board@, avail@);
        assert(board@ =~= empty_cells());
    }
    *board = board.with_move(pos, player);
    player = opponent(player);
    let ghost opening = board@;
    assert(opening == empty_cells().update(idx as int, Cell::X));

    loop
        invariant
            board@.len() == 9,
            player != Cell::Empty,
            cache_sound(cache@),
            play_out(board@, player) == play_out(opening, Cell::O),
        ensures
            board@ == play_out(opening, Cell::O),
        decreases empty_count(board@),
    {
        proof {
            lemma_best_move_is_empty(board@, player);
        }
        let remaining = board.available_moves();
        if remaining.is_empty() {
            break;
        }
        let mv = choose_best_move(&*board, player, &mut cache);
        match mv {
            Some(pos) => {
                proof {
                    lemma_move_fills(board@, pos as int, player);
                }
                *board = board.with_move(pos, player);
                player = opponent(player);
            },
            None => {
                break;
            },
        }
    }
    proof {
        lemma_play_out_is_full(opening, Cell::O);
        assert(board@ == game_from_opening(idx as int));
        if outcome(opening, Cell::O) == 0 {
            lemma_drawn_opening_ends_in_tie(idx as int);
        }
    }
}

/// The best reply is at least as good as every reply, and where there is a
/// reply at all, one of them attains it.
pub proof fn lemma_best_reply_is_maximum(cells: Seq<Cell>, player: Cell, pos: int)
    requires
        cells.len() == 9,
        player != Cell::Empty,
        0 <= pos <= 9,
    ensures
        forall|p: int|
            pos <= p < 9 && #[trigger] cells[p] == Cell::Empty ==> reply_value(cells, player, p)
                <= best_reply_from(cells, player, pos),
        best_reply_from(cells, player, pos) != -128 ==> exists|p: int|
            pos <= p < 9 && #[trigger] cells[p] == Cell::Empty && reply_value(cells, player, p)
                == best_reply_from(cells, player, pos),
    decreases 9 - pos,
{
    if pos < 9 {
        lemma_best_reply_is_maximum(cells, player, pos + 1);
        lemma_best_reply_range(cells, player, pos + 1);
        if cells[pos] == Cell::Empty {
            lemma_move_fills(cells, pos, player);
            lemma_outcome_range(cells.update(pos, player), opponent_spec(player));
        }
        let best = best_reply_from(cells, player, pos);
        let rest = best_reply_from(cells, player, pos + 1);
        if best != -128 {
            if cells[pos] == Cell::Empty && reply_value(cells, player, pos) == best {
                assert(pos <= pos < 9 && cells[pos] == Cell::Empty && reply_value(
                    cells,
                    player,
                    pos,
                ) == best);
            } else {
                assert(best == rest);
                let p = choose|p: int|
                    pos + 1 <= p < 9 && #[trigger] cells[p] == Cell::Empty && reply_value(
                        cells,
                        player,
                        p,
                    ) == rest;
                assert(pos <= p < 9 && cells[p] == Cell::Empty && reply_value(cells, player, p)
                    == best);
            }
        }
    }
}

proof fn lemma_first_safe_finds(cells: Seq<Cell>, player: Cell, pos: int, p: int)
    requires
        0 <= pos <= p < 9,
        cells[p] == Cell::Empty,
        reply_value(cells, player, p) >= 0,
    ensures
        pos <= first_safe_from(cells, player, pos) <= p,
        cells[first_safe_from(cells, player, pos)] == Cell::Empty,
        reply_value(cells, player, first_safe_from(cells, player, pos)) >= 0,
    decreases p - pos,
{
    if !(cells[pos] == Cell::Empty && reply_value(cells, player, pos) >= 0) {
        lemma_first_safe_finds(cells, player, pos + 1, p);
    }
}

/// From a position that is a draw under best play, the game that the two
/// players play out ends in a tie: each chosen move keeps the position a
/// draw, and a full board that is a draw has no completed line.
pub proof fn lemma_drawn_position_ends_in_tie(cells: Seq<Cell>, player: Cell)
    requires
        cells.len() == 9,
        player != Cell::Empty,
        outcome(cells, player) == 0,
    ensures
        is_tie_spec(play_out(cells, player)),
    decreases empty_count(cells),
{
    lemma_winner_is_player(cells);
    lemma_best_move_is_empty(cells, player);
    assert(winner_spec(cells) is None);
    if is_full(cells) {
        match best_move_spec(cells, player) {
            Some(pos) => {
                assert(cells[pos as int] != Cell::Empty);
            },
            None => {},
        }
    } else {
        lemma_best_reply_is_maximum(cells, player, 0);
        let p = choose|p: int|
            0 <= p < 9 && #[trigger] cells[p] == Cell::Empty && reply_value(cells, player, p) == 0;
        lemma_first_safe_finds(cells, player, 0, p);
        let chosen = first_safe_from(cells, player, 0);
        assert(cells[chosen] == Cell::Empty);
        assert(reply_value(cells, player, chosen) == 0);
        assert(best_move_spec(cells, player) == Some(chosen as usize));
        lemma_move_fills(cells, chosen, player);
        lemma_drawn_position_ends_in_tie(cells.update(chosen, player), opponent_spec(player));
    }
}

/// Where the position after X's opening move is a draw under best play, the
/// whole game ends in a tie.
pub proof fn lemma_drawn_opening_ends_in_tie(square: int)
    requires
        0 <= square < 9,
        outcome(empty_cells().update(square, Cell::X), Cell::O) == 0,
    ensures
        is_tie_spec(game_from_opening(square)),
{
    lemma_drawn_position_ends_in_tie(empty_cells().update(square, Cell::X), Cell::O);
}

/// What to show for a game of a long series.
#[derive(Clone, Copy, Debug, PartialEq, Eq, Structural)]
pub enum GameDisplay {
    /// Play the game and show its final board.
    Board,
    /// Show a dot.
    Dot,
    /// Show nothing.
    Nothing,
}

/// The first game and every 2000th show their board; of the others every
/// 20th shows a dot.
pub open spec fn display_step_spec(game_num: u64) -> GameDisplay {
    if game_num == 1 || game_num % 2000 == 0 {
        GameDisplay::Board
    } else if game_num % 20 == 0 {
        GameDisplay::Dot
    } else {
        GameDisplay::Nothing
    }
}

/// What to show for game number `game_num` of a series.
pub fn display_step(game_num: u64) -> (shown: GameDisplay)
    ensures
        shown == display_step_spec(game_num),
{
    if game_num == 1 || game_num % 2000 == 0 {
        GameDisplay::Board
    } else if game_num % 20 == 0 {
        GameDisplay::Dot
    } else {
        GameDisplay::Nothing
    }
}

} // verus!
