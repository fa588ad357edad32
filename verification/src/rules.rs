//! The mathematical model of the game: what a board holds, which runs of
//! opponent pieces a move brackets, which moves are legal, what a move
//! changes, and how a board is scored. The executable engine in
//! `crate::game` is specified entirely over these definitions.

use crate::game::{Coordinate, Direction, Game, MoveError, Player};
use vstd::prelude::*;

verus! {

/// Valid cells have both parts of the coordinate in [0, 8).
pub open spec fn in_bounds(x: int, y: int) -> bool {
    0 <= x < 8 && 0 <= y < 8
}

/// The other player: whose pieces a mover flips, and who moves next.
pub open spec fn opponent(p: Player) -> Player {
    match p {
        Player::Alice => Player::Bob,
        Player::Bob => Player::Alice,
    }
}

/// The contents of cell (x, y) of the grid.
pub open spec fn cell(g: Game, x: int, y: int) -> Option<Player> {
    g.board@[x]@[y]
}

/// How a step along `d` changes the x part of a coordinate.
pub open spec fn delta_x(d: Direction) -> int {
    match d {
        Direction::East | Direction::Northeast | Direction::Southeast => 1,
        Direction::West | Direction::Northwest | Direction::Southwest => -1,
        Direction::North | Direction::South => 0,
    }
}

/// How a step along `d` changes the y part of a coordinate.
pub open spec fn delta_y(d: Direction) -> int {
    match d {
        Direction::North | Direction::Northwest | Direction::Northeast => 1,
        Direction::South | Direction::Southwest | Direction::Southeast => -1,
        Direction::East | Direction::West => 0,
    }
}

/// The neighbour of `c` one step along `d`, or `None` when that step leaves
/// the board.
pub open spec fn step(c: Coordinate, d: Direction) -> Option<Coordinate> {
    if in_bounds(c.x + delta_x(d), c.y + delta_y(d)) {
        Some(
            Coordinate {
                x: (c.x + delta_x(d)) as usize,
                y: (c.y + delta_y(d)) as usize,
            },
        )
    } else {
        None
    }
}

/// The position reached from `start` after `i` steps of size `delta`.
pub open spec fn ray_pos(start: int, delta: int, i: int) -> int
    decreases i,
{
    if i <= 0 {
        start
    } else {
        ray_pos(start, delta, i - 1) + delta
    }
}

/// The x part of the cell `i` steps from (x, _) along `d`.
pub open spec fn ray_x(x: int, d: Direction, i: int) -> int {
    ray_pos(x, delta_x(d), i)
}

/// The y part of the cell `i` steps from (_, y) along `d`.
pub open spec fn ray_y(y: int, d: Direction, i: int) -> int {
    ray_pos(y, delta_y(d), i)
}

/// The cell `i` steps from (x, y) along `d`, as a coordinate.
pub open spec fn ray_coord(x: int, y: int, d: Direction, i: int) -> Coordinate {
    Coordinate { x: ray_x(x, d, i) as usize, y: ray_y(y, d, i) as usize }
}

/// The cell `i` steps from (x, y) along `d`, or `None` when it is off the
/// board: what walking the ray one step at a time reaches.
pub open spec fn ray_step(x: int, y: int, d: Direction, i: int) -> Option<Coordinate> {
    if in_bounds(ray_x(x, d, i), ray_y(y, d, i)) {
        Some(ray_coord(x, y, d, i))
    } else {
        None
    }
}

/// The cell `i` steps out along `d` is on the board and holds the opponent
/// of `p`.
pub open spec fn opponent_at(g: Game, x: int, y: int, d: Direction, p: Player, i: int) -> bool {
    in_bounds(ray_x(x, d, i), ray_y(y, d, i)) && cell(g, ray_x(x, d, i), ray_y(y, d, i))
        == Some(opponent(p))
}

/// The cell `i` steps out along `d` is on the board and holds `p` itself.
pub open spec fn mover_at(g: Game, x: int, y: int, d: Direction, p: Player, i: int) -> bool {
    in_bounds(ray_x(x, d, i), ray_y(y, d, i)) && cell(g, ray_x(x, d, i), ray_y(y, d, i))
        == Some(p)
}

/// Walking from (x, y) along `d`, the next `n` cells all hold the opponent
/// of `p` and the cell right after them holds `p`: the run is bracketed.
pub open spec fn brackets_n(g: Game, x: int, y: int, d: Direction, p: Player, n: int) -> bool {
    &&& n >= 1
    &&& forall|i: int| 1 <= i <= n ==> #[trigger] opponent_at(g, x, y, d, p, i)
    &&& mover_at(g, x, y, d, p, n + 1)
}

/// Some opponent run along `d` is bracketed.
pub open spec fn brackets(g: Game, x: int, y: int, d: Direction, p: Player) -> bool {
    exists|n: int| brackets_n(g, x, y, d, p, n)
}

/// The length of the bracketed run along `d`, or 0 when there is none.
pub open spec fn ray_len(g: Game, x: int, y: int, d: Direction, p: Player) -> int {
    if brackets(g, x, y, d, p) {
        choose|n: int| brackets_n(g, x, y, d, p, n)
    } else {
        0
    }
}

/// The opponent cells flipped along `d` by playing at (x, y), nearest first.
pub open spec fn ray_flips(g: Game, x: int, y: int, d: Direction, p: Player) -> Seq<Coordinate> {
    Seq::new(ray_len(g, x, y, d, p) as nat, |i: int| ray_coord(x, y, d, i + 1))
}

/// Every cell flipped by `p` playing at (x, y), direction by direction in a
/// fixed order.
pub open spec fn move_flips(g: Game, x: int, y: int, p: Player) -> Seq<Coordinate> {
    ray_flips(g, x, y, Direction::North, p) + ray_flips(g, x, y, Direction::South, p)
        + ray_flips(g, x, y, Direction::East, p) + ray_flips(g, x, y, Direction::West, p)
        + ray_flips(g, x, y, Direction::Northwest, p) + ray_flips(
        g,
        x,
        y,
        Direction::Northeast,
        p,
    ) + ray_flips(g, x, y, Direction::Southwest, p) + ray_flips(
        g,
        x,
        y,
        Direction::Southeast,
        p,
    )
}

/// At least one direction brackets an opponent run from (x, y).
pub open spec fn has_bracket(g: Game, x: int, y: int, p: Player) -> bool {
    ||| brackets(g, x, y, Direction::North, p)
    ||| brackets(g, x, y, Direction::South, p)
    ||| brackets(g, x, y, Direction::East, p)
    ||| brackets(g, x, y, Direction::West, p)
    ||| brackets(g, x, y, Direction::Northwest, p)
    ||| brackets(g, x, y, Direction::Northeast, p)
    ||| brackets(g, x, y, Direction::Southwest, p)
    ||| brackets(g, x, y, Direction::Southeast, p)
}

/// A legal move for `p`: an empty cell on the board that brackets at least
/// one opponent run in some direction.
pub open spec fn legal_move(g: Game, x: int, y: int, p: Player) -> bool {
    &&& in_bounds(x, y)
    &&& cell(g, x, y) is None
    &&& has_bracket(g, x, y, p)
}

/// An optional coordinate names a cell on the board that holds `p`.
pub open spec fn player_at(g: Game, c: Option<Coordinate>, p: Player) -> bool {
    match c {
        Some(q) => in_bounds(q.x as int, q.y as int) && cell(g, q.x as int, q.y as int)
            == Some(p),
        None => false,
    }
}

/// What validating a move at `c` for `p` on board `g` must return: the one
/// matching error, or the full sequence of cells to flip.
pub open spec fn validation_outcome(
    g: Game,
    c: Coordinate,
    p: Player,
    r: Result<Vec<Coordinate>, MoveError>,
) -> bool {
    if !in_bounds(c.x as int, c.y as int) {
        r == Err::<Vec<Coordinate>, MoveError>(MoveError::InvalidPosition)
    } else if cell(g, c.x as int, c.y as int) is Some {
        r == Err::<Vec<Coordinate>, MoveError>(MoveError::NonEmptyPosition)
    } else if !has_bracket(g, c.x as int, c.y as int, p) {
        r == Err::<Vec<Coordinate>, MoveError>(MoveError::InvalidPosition)
    } else {
        r matches Ok(v) && v@ == move_flips(g, c.x as int, c.y as int, p)
    }
}

/// The grid of `g2` is the grid of `g` after `p` has taken the cell (x, y)
/// together with the cells in `taken`: all of those hold `p`, every other
/// cell is as before.
pub open spec fn grid_taken(
    g: Game,
    g2: Game,
    x: int,
    y: int,
    p: Player,
    taken: Seq<Coordinate>,
) -> bool {
    forall|i: int, j: int|
        in_bounds(i, j) ==> #[trigger] cell(g2, i, j) == if (i == x && j == y) || taken.contains(
            Coordinate { x: i as usize, y: j as usize },
        ) {
            Some(p)
        } else {
            cell(g, i, j)
        }
}

/// The grid of `g2` is the grid of `g` after `p` has played at (x, y): the
/// target and every flipped cell hold `p`, every other cell is as before.
pub open spec fn board_after(g: Game, g2: Game, x: int, y: int, p: Player) -> bool {
    grid_taken(g, g2, x, y, p, move_flips(g, x, y, p))
}

/// Pieces of `p` among the cells (x, 0) .. (x, n).
pub open spec fn line_count(g: Game, p: Player, x: int, n: int) -> int
    decreases n,
{
    if n <= 0 {
        0
    } else {
        line_count(g, p, x, n - 1) + if cell(g, x, n - 1) == Some(p) {
            1int
        } else {
            0int
        }
    }
}

/// Pieces of `p` among the lines 0 .. n of the grid.
pub open spec fn grid_count(g: Game, p: Player, n: int) -> int
    decreases n,
{
    if n <= 0 {
        0
    } else {
        grid_count(g, p, n - 1) + line_count(g, p, n - 1, 8)
    }
}

/// How many pieces `p` has on the whole board.
pub open spec fn count_pieces(g: Game, p: Player) -> int {
    grid_count(g, p, 8)
}

/// What a freshly seeded cell holds: the four centre cells carry two pieces
/// per player on the two diagonals, everything else is empty.
pub open spec fn initial_cell(x: int, y: int) -> Option<Player> {
    if (x == 3 && y == 4) || (x == 4 && y == 3) {
        Some(Player::Alice)
    } else if (x == 3 && y == 3) || (x == 4 && y == 4) {
        Some(Player::Bob)
    } else {
        None
    }
}

/// The state a game starts in: the seeded grid, first player to move.
pub open spec fn initial_state(g: Game) -> bool {
    &&& g.current_player == Player::Alice
    &&& forall|x: int, y: int| in_bounds(x, y) ==> #[trigger] cell(g, x, y) == initial_cell(x, y)
}

/// `p` has no legal move anywhere on the board.
pub open spec fn no_moves(g: Game, p: Player) -> bool {
    forall|x: int, y: int| !legal_move(g, x, y, p)
}

/// The game is over: neither player has a legal move left.
pub open spec fn game_over(g: Game) -> bool {
    no_moves(g, Player::Alice) && no_moves(g, Player::Bob)
}

/// Positions of size `delta` in {-1, 0, 1} reached by stepping are the start
/// shifted by `i`, against `i`, or not at all.
pub proof fn lemma_ray_pos(start: int, delta: int, i: int)
    requires
        i >= 0,
        -1 <= delta <= 1,
    ensures
        ray_pos(start, delta, i) == start + (if delta == 1 {
            i
        } else if delta == -1 {
            -i
        } else {
            0
        }),
    decreases i,
{
    if i > 0 {
        lemma_ray_pos(start, delta, i - 1);
    }
}

/// A bracketed run from a cell with nonnegative coordinates is at most 8
/// cells long: longer runs would leave the board.
pub proof fn lemma_run_bounded(g: Game, x: int, y: int, d: Direction, p: Player, n: int)
    requires
        n >= 1,
        x >= 0,
        y >= 0,
        forall|i: int| 1 <= i <= n ==> #[trigger] opponent_at(g, x, y, d, p, i),
    ensures
        n <= 8,
{
    assert(opponent_at(g, x, y, d, p, 1));
    assert(opponent_at(g, x, y, d, p, n));
    lemma_ray_pos(x, delta_x(d), 1);
    lemma_ray_pos(x, delta_x(d), n);
    lemma_ray_pos(y, delta_y(d), 1);
    lemma_ray_pos(y, delta_y(d), n);
    assert(delta_x(d) != 0 || delta_y(d) != 0);
}

/// Only one run length can be bracketed along a given direction.
pub proof fn lemma_bracket_unique(
    g: Game,
    x: int,
    y: int,
    d: Direction,
    p: Player,
    n: int,
    m: int,
)
    requires
        brackets_n(g, x, y, d, p, n),
        brackets_n(g, x, y, d, p, m),
    ensures
        n == m,
{
    if n < m {
        assert(opponent_at(g, x, y, d, p, n + 1));
        assert(mover_at(g, x, y, d, p, n + 1));
    }
    if m < n {
        assert(opponent_at(g, x, y, d, p, m + 1));
        assert(mover_at(g, x, y, d, p, m + 1));
    }
}

/// The run the flips along `d` stand for: its length is the bracketed run's
/// length, every bracketed length is that one, and without a bracket nothing
/// is flipped.
pub proof fn lemma_ray_flips_len(g: Game, x: int, y: int, d: Direction, p: Player)
    ensures
        ray_flips(g, x, y, d, p).len() == ray_len(g, x, y, d, p),
        brackets(g, x, y, d, p) ==> brackets_n(g, x, y, d, p, ray_len(g, x, y, d, p)),
        brackets(g, x, y, d, p) ==> ray_len(g, x, y, d, p) >= 1,
        !brackets(g, x, y, d, p) ==> ray_len(g, x, y, d, p) == 0,
        forall|n: int| brackets_n(g, x, y, d, p, n) ==> n == ray_len(g, x, y, d, p),
{
    if brackets(g, x, y, d, p) {
        let n = choose|n: int| brackets_n(g, x, y, d, p, n);
        assert(brackets_n(g, x, y, d, p, n));
        assert forall|m: int| brackets_n(g, x, y, d, p, m) implies m == ray_len(
            g,
            x,
            y,
            d,
            p,
        ) by {
            lemma_bracket_unique(g, x, y, d, p, m, n);
        }
    }
}

/// A move flips a cell exactly when some direction brackets a run.
pub proof fn lemma_move_flips_empty(g: Game, x: int, y: int, p: Player)
    ensures
        move_flips(g, x, y, p).len() == 0 <==> !has_bracket(g, x, y, p),
{
    lemma_ray_flips_len(g, x, y, Direction::North, p);
    lemma_ray_flips_len(g, x, y, Direction::South, p);
    lemma_ray_flips_len(g, x, y, Direction::East, p);
    lemma_ray_flips_len(g, x, y, Direction::West, p);
    lemma_ray_flips_len(g, x, y, Direction::Northwest, p);
    lemma_ray_flips_len(g, x, y, Direction::Northeast, p);
    lemma_ray_flips_len(g, x, y, Direction::Southwest, p);
    lemma_ray_flips_len(g, x, y, Direction::Southeast, p);
}

/// Appending one element to a sequence adds exactly that element to what the
/// sequence contains.
pub proof fn lemma_push_contains<A>(s: Seq<A>, a: A, x: A)
    ensures
        s.push(a).contains(x) <==> s.contains(x) || x == a,
{
    if s.contains(x) {
        let i = choose|i: int| 0 <= i < s.len() && s[i] == x;
        assert(s.push(a)[i] == x);
    }
    assert(s.push(a)[s.len() as int] == a);
    if s.push(a).contains(x) {
        let i = choose|i: int| 0 <= i < s.push(a).len() && s.push(a)[i] == x;
        if i < s.len() {
            assert(s[i] == x);
        }
    }
}

/// Validating a move is a pure function of board, target and player: two
/// outcomes of validating the same move on the same state agree, error for
/// error and flipped cell for flipped cell.
pub proof fn lemma_validation_deterministic(
    g: Game,
    c: Coordinate,
    p: Player,
    r1: Result<Vec<Coordinate>, MoveError>,
    r2: Result<Vec<Coordinate>, MoveError>,
)
    requires
        validation_outcome(g, c, p, r1),
        validation_outcome(g, c, p, r2),
    ensures
        r1 is Ok <==> r2 is Ok,
        r1 matches Err(e1) ==> r2 == Err::<Vec<Coordinate>, MoveError>(e1),
        r1 is Ok ==> r1.unwrap()@ == r2.unwrap()@,
{
}

/// A player's list of valid moves is empty exactly when the player has no
/// legal move on the whole board.
pub proof fn lemma_no_moves_iff_empty(g: Game, p: Player, moves: Seq<Coordinate>)
    requires
        forall|q: Coordinate| moves.contains(q) <==> legal_move(g, q.x as int, q.y as int, p),
    ensures
        moves.len() == 0 <==> no_moves(g, p),
{
    if moves.len() == 0 {
        assert forall|x: int, y: int| !legal_move(g, x, y, p) by {
            if legal_move(g, x, y, p) {
                let q = Coordinate { x: x as usize, y: y as usize };
                assert(moves.contains(q));
            }
        }
    } else {
        let q = moves[0];
        assert(moves.contains(q));
        assert(legal_move(g, q.x as int, q.y as int, p));
    }
}

} // verus!
