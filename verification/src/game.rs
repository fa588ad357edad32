//! The game engine: the board with the player to move, and the operations
//! that read and change it. Every operation carries a contract stated over
//! the model in `crate::rules`.

use crate::rules::{
    board_after, brackets, brackets_n, cell, count_pieces, delta_x, delta_y, game_over,
    grid_count, grid_taken, has_bracket, in_bounds, initial_state, legal_move, lemma_move_flips_empty,
    lemma_no_moves_iff_empty, lemma_push_contains, lemma_ray_flips_len, lemma_run_bounded,
    line_count, mover_at, move_flips, opponent, opponent_at, player_at, ray_coord, ray_flips,
    ray_len, ray_pos, ray_step, ray_x, ray_y, step, validation_outcome,
};
use vstd::prelude::*;

verus! {

/// One of the two players. The first player opens the game.
#[derive(Copy, Clone, Debug, PartialEq, Eq, Structural)]
pub enum Player {
    Alice,
    Bob,
}

/// Why a move was rejected. A rejected move never changes the game state.
#[derive(Copy, Clone, Debug, PartialEq, Eq, Structural)]
pub enum MoveError {
    /// The target cell already holds a piece.
    NonEmptyPosition,
    /// The target is off the board, or no direction brackets an opponent run.
    InvalidPosition,
}

/// A cell of the board, zero-indexed; valid positions have both parts in [0, 8).
#[derive(Copy, Clone, Debug, PartialEq, Eq, Structural)]
pub struct Coordinate {
    pub x: usize,
    pub y: usize,
}

/// One of the eight compass directions a bracketing line can run in.
#[derive(Copy, Clone, Debug)]
pub enum Direction {
    North,
    South,
    East,
    West,
    Northwest,
    Northeast,
    Southwest,
    Southeast,
}

impl Coordinate {
    /// The neighbouring cell one step along `direction`, or `None` when that
    /// step would leave the board.
    pub fn forward(&self, direction: &Direction) -> (r: Option<Coordinate>)
        ensures
            r == step(*self, *direction),
    {
        let nx: Option<usize> = match *direction {
            Direction::North | Direction::South => {
                if self.x < 8 {
                    Some(self.x)
                } else {
                    None
                }
            },
            Direction::East | Direction::Northeast | Direction::Southeast => {
                if self.x < 7 {
                    Some(self.x + 1)
                } else {
                    None
                }
            },
            Direction::West | Direction::Northwest | Direction::Southwest => {
                if 1 <= self.x && self.x <= 8 {
                    Some(self.x - 1)
                } else {
                    None
                }
            },
        };
        let ny: Option<usize> = match *direction {
            Direction::East | Direction::West => {
                if self.y < 8 {
                    Some(self.y)
                } else {
                    None
                }
            },
            Direction::North | Direction::Northeast | Direction::Northwest => {
                if self.y < 7 {
                    Some(self.y + 1)
                } else {
                    None
                }
            },
            Direction::South | Direction::Southeast | Direction::Southwest => {
                if 1 <= self.y && self.y <= 8 {
                    Some(self.y - 1)
                } else {
                    None
                }
            },
        };
        match (nx, ny) {
            (Some(x), Some(y)) => Some(Coordinate { x, y }),
            _ => None,
        }
    }
}

/// The whole game state: the 8 x 8 grid and whose turn it is. `board[x][y]`
/// holds the piece on cell (x, y), or `None` where the cell is empty.
#[derive(Clone, Debug, PartialEq, Eq)]
pub struct Game {
    pub current_player: Player,
    pub board: [[Option<Player>; 8]; 8],
}

impl Default for Game {
    /// A fresh game: the four centre cells seeded, first player to move.
    fn default() -> (g: Game)
        ensures
            initial_state(g),
    {
        let mut game = Game { current_player: Player::Alice, board: [[None;8];8] };
        game.set_position(&Coordinate { x: 3, y: 4 }, Player::Alice);
        game.set_position(&Coordinate { x: 4, y: 4 }, Player::Bob);
        game.set_position(&Coordinate { x: 3, y: 3 }, Player::Bob);
        game.set_position(&Coordinate { x: 4, y: 3 }, Player::Alice);
        game
    }
}

impl Game {
    /// Whether `coordinates` lies on the board.
    pub fn within_bounds(&self, coordinates: &Coordinate) -> (r: bool)
        ensures
            r == in_bounds(coordinates.x as int, coordinates.y as int),
    {
        coordinates.x < 8 && coordinates.y < 8
    }

    /// The other player.
    pub fn other(&self, p: Player) -> (r: Player)
        ensures
            r == opponent(p),
    {
        match p {
            Player::Alice => Player::Bob,
            Player::Bob => Player::Alice,
        }
    }

    /// Hands the turn to the opponent; the grid stays as it is.
    fn change_player(&mut self)
        ensures
            final(self).current_player == opponent(old(self).current_player),
            final(self).board == old(self).board,
    {
        self.current_player = self.other(self.current_player);
    }

    /// The contents of the cell at `c`.
    pub fn position(&self, c: &Coordinate) -> (r: Option<Player>)
        requires
            c.x < 8,
            c.y < 8,
        ensures
            r == cell(*self, c.x as int, c.y as int),
    {
        self.board[c.x][c.y]
    }

    /// Puts a piece of `p` on the cell at `c`; no other cell changes, nor
    /// whose turn it is.
    fn set_position(&mut self, c: &Coordinate, p: Player)
        requires
            c.x < 8,
            c.y < 8,
        ensures
            final(self).current_player == old(self).current_player,
            forall|i: int, j: int|
                in_bounds(i, j) ==> #[trigger] cell(*final(self), i, j) == if i == c.x as int && j
                    == c.y as int {
                    Some(p)
                } else {
                    cell(*old(self), i, j)
                },
    {
        let mut row: [Option<Player>; 8] = self.board[c.x];
        row[c.y] = Some(p);
        self.board[c.x] = row;
    }

    /// Walks outward from `c` along `direction` over cells of the opponent
    /// of `player`: when the run is bracketed by a piece of `player`, the
    /// run is returned nearest cell first; otherwise nothing is.
    #[verifier::loop_isolation(false)]
    pub fn raytrace(&self, c: &Coordinate, direction: &Direction, player: Player) -> (r: Vec<
        Coordinate,
    >)
        ensures
            r@ == ray_flips(*self, c.x as int, c.y as int, *direction, player),
            forall|k: int|
                0 <= k < r@.len() ==> in_bounds((#[trigger] r@[k]).x as int, r@[k].y as int)
                    && cell(*self, r@[k].x as int, r@[k].y as int) == Some(opponent(player)),
    {
        let ghost x0 = c.x as int;
        let ghost y0 = c.y as int;
        let ghost d = *direction;
        let opp = self.other(player);
        let mut run: Vec<Coordinate> = Vec::new();
        let mut cur: Option<Coordinate> = c.forward(direction);
        proof {
            assert(ray_pos(x0, delta_x(d), 0) == x0);
            assert(ray_pos(x0, delta_x(d), 1) == x0 + delta_x(d));
            assert(ray_pos(y0, delta_y(d), 0) == y0);
            assert(ray_pos(y0, delta_y(d), 1) == y0 + delta_y(d));
        }
        let mut keep_going = self.check_position_against_player(cur, opp);
        while keep_going
            invariant
                run@.len() <= 8,
                forall|k: int|
                    0 <= k < run@.len() ==> (#[trigger] run@[k]) == ray_coord(x0, y0, d, k + 1),
                forall|i: int|
                    1 <= i <= run@.len() ==> #[trigger] opponent_at(*self, x0, y0, d, player, i),
                cur == ray_step(x0, y0, d, run@.len() as int + 1),
                keep_going == player_at(*self, cur, opponent(player)),
            decreases 9 - run@.len(),
        {
            let q = cur.unwrap();
            proof {
                let n = run@.len() as int;
                assert(in_bounds(ray_x(x0, d, n + 1), ray_y(y0, d, n + 1)));
                assert(q == ray_coord(x0, y0, d, n + 1));
                assert(opponent_at(*self, x0, y0, d, player, n + 1));
            }
            run.push(q);
            proof {
                lemma_run_bounded(*self, x0, y0, d, player, run@.len() as int);
            }
            cur = q.forward(direction);
            proof {
                let n = run@.len() as int;
                assert(ray_pos(x0, delta_x(d), n + 1) == ray_pos(x0, delta_x(d), n) + delta_x(d));
                assert(ray_pos(y0, delta_y(d), n + 1) == ray_pos(y0, delta_y(d), n) + delta_y(d));
                assert(cur == ray_step(x0, y0, d, n + 1));
            }
            keep_going = self.check_position_against_player(cur, opp);
        }
        if run.len() > 0 && self.check_position_against_player(cur, player) {
            proof {
                let n = run@.len() as int;
                assert(mover_at(*self, x0, y0, d, player, n + 1));
                assert(brackets_n(*self, x0, y0, d, player, n));
                assert(brackets(*self, x0, y0, d, player));
                lemma_ray_flips_len(*self, x0, y0, d, player);
                assert(ray_len(*self, x0, y0, d, player) == n);
                assert(run@ =~= ray_flips(*self, x0, y0, d, player));
                assert forall|k: int|
                    0 <= k < run@.len() implies in_bounds(
                    (#[trigger] run@[k]).x as int,
                    run@[k].y as int,
                ) && cell(*self, run@[k].x as int, run@[k].y as int) == Some(
                    opponent(player),
                ) by {
                    assert(opponent_at(*self, x0, y0, d, player, k + 1));
                }
            }
            run
        } else {
            proof {
                if brackets(*self, x0, y0, d, player) {
                    let n = run@.len() as int;
                    let m = choose|m: int| brackets_n(*self, x0, y0, d, player, m);
                    assert(brackets_n(*self, x0, y0, d, player, m));
                    if m <= n - 1 {
                        assert(opponent_at(*self, x0, y0, d, player, m + 1));
                        assert(mover_at(*self, x0, y0, d, player, m + 1));
                        assert(false);
                    } else if m == n {
                        assert(mover_at(*self, x0, y0, d, player, n + 1));
                        assert(player_at(*self, cur, player));
                        assert(false);
                    } else {
                        assert(opponent_at(*self, x0, y0, d, player, n + 1));
                        assert(player_at(*self, cur, opponent(player)));
                        assert(false);
                    }
                }
                lemma_ray_flips_len(*self, x0, y0, d, player);
                assert(ray_flips(*self, x0, y0, d, player) =~= Seq::<Coordinate>::empty());
            }
            Vec::new()
        }
    }

    /// Validates a move at `c` for `p`: rejects an off-board target or an
    /// occupied cell, and otherwise gathers the flipped cells of all eight
    /// directions; a move that flips nothing is rejected too.
    pub fn is_valid_move(&self, c: &Coordinate, p: Player) -> (r: Result<
        Vec<Coordinate>,
        MoveError,
    >)
        ensures
            validation_outcome(*self, *c, p, r),
            r matches Ok(v) ==> forall|k: int|
                0 <= k < v@.len() ==> in_bounds((#[trigger] v@[k]).x as int, v@[k].y as int),
    {
        if !self.within_bounds(c) {
            return Err(MoveError::InvalidPosition);
        }
        match self.position(c) {
            Some(_) => Err(MoveError::NonEmptyPosition),
            None => {
                let mut cs: Vec<Coordinate> = self.raytrace(c, &Direction::North, p);
                let mut more = self.raytrace(c, &Direction::South, p);
                cs.append(&mut more);
                let mut more = self.raytrace(c, &Direction::East, p);
                cs.append(&mut more);
                let mut more = self.raytrace(c, &Direction::West, p);
                cs.append(&mut more);
                let mut more = self.raytrace(c, &Direction::Northwest, p);
                cs.append(&mut more);
                let mut more = self.raytrace(c, &Direction::Northeast, p);
                cs.append(&mut more);
                let mut more = self.raytrace(c, &Direction::Southwest, p);
                cs.append(&mut more);
                let mut more = self.raytrace(c, &Direction::Southeast, p);
                cs.append(&mut more);
                proof {
                    assert(cs@ == move_flips(*self, c.x as int, c.y as int, p));
                    lemma_move_flips_empty(*self, c.x as int, c.y as int, p);
                }
                if cs.is_empty() {
                    Err(MoveError::InvalidPosition)
                } else {
                    Ok(cs)
                }
            },
        }
    }

    /// Every cell where `p` could legally play on the current board, in
    /// row-major order of the scan.
    #[verifier::loop_isolation(false)]
    pub fn valid_moves(&self, p: Player) -> (r: Vec<Coordinate>)
        ensures
            forall|q: Coordinate|
                #[trigger] r@.contains(q) <==> legal_move(*self, q.x as int, q.y as int, p),
            forall|k1: int, k2: int| 0 <= k1 < k2 < r@.len() ==> r@[k1] != r@[k2],
    {
        let mut moves: Vec<Coordinate> = Vec::new();
        let mut x: usize = 0;
        while x < 8
            invariant
                x <= 8,
                forall|q: Coordinate|
                    #[trigger] moves@.contains(q) <==> legal_move(*self, q.x as int, q.y as int, p)
                        && q.x < x,
                forall|k1: int, k2: int|
                    0 <= k1 < k2 < moves@.len() ==> moves@[k1] != moves@[k2],
            decreases 8 - x,
        {
            let mut y: usize = 0;
            while y < 8
                invariant
                    x < 8,
                    y <= 8,
                    forall|q: Coordinate|
                        #[trigger] moves@.contains(q) <==> legal_move(
                            *self,
                            q.x as int,
                            q.y as int,
                            p,
                        ) && (q.x < x || (q.x == x && q.y < y)),
                    forall|k1: int, k2: int|
                        0 <= k1 < k2 < moves@.len() ==> moves@[k1] != moves@[k2],
                decreases 8 - y,
            {
                let cc = Coordinate { x, y };
                let ghost before = moves@;
                if self.is_valid_move(&cc, p).is_ok() {
                    moves.push(cc);
                    proof {
                        assert forall|q: Coordinate| #[trigger]
                            moves@.contains(q) <==> legal_move(*self, q.x as int, q.y as int, p)
                                && (q.x < x || (q.x == x && q.y < y + 1)) by {
                            lemma_push_contains(before, cc, q);
                        }
                        assert forall|k1: int| 0 <= k1 < before.len() implies before[k1] != cc by {
                            assert(before.contains(before[k1]));
                        }
                    }
                }
                y = y + 1;
            }
            x = x + 1;
        }
        moves
    }

    /// Plays the current player's piece at (x, y) when that is legal: the
    /// target and every bracketed opponent cell take the mover's piece, the
    /// turn passes, and the new current player is returned. A rejected move
    /// reports why and leaves the whole state exactly as it was.
    #[verifier::loop_isolation(false)]
    pub fn make_move(&mut self, x: usize, y: usize) -> (r: Result<Player, MoveError>)
        ensures
            r is Ok <==> legal_move(*old(self), x as int, y as int, old(self).current_player),
            r matches Ok(next) ==> {
                &&& next == opponent(old(self).current_player)
                &&& final(self).current_player == next
                &&& board_after(
                    *old(self),
                    *final(self),
                    x as int,
                    y as int,
                    old(self).current_player,
                )
            },
            r matches Err(e) ==> {
                &&& *final(self) == *old(self)
                &&& (e == MoveError::NonEmptyPosition <==> in_bounds(x as int, y as int) && cell(
                    *old(self),
                    x as int,
                    y as int,
                ) is Some)
                &&& (e == MoveError::InvalidPosition <==> !in_bounds(x as int, y as int) || (cell(
                    *old(self),
                    x as int,
                    y as int,
                ) is None && !has_bracket(
                    *old(self),
                    x as int,
                    y as int,
                    old(self).current_player,
                )))
            },
    {
        let c = Coordinate { x, y };
        let validity = self.is_valid_move(&c, self.current_player);
        match validity {
            Ok(cs) => {
                let ghost g0 = *self;
                let p = self.current_player;
                self.set_position(&c, p);
                let ghost g1 = *self;
                self.change_player();
                proof {
                    assert forall|i: int, j: int| in_bounds(i, j) implies #[trigger] cell(
                        *self,
                        i,
                        j,
                    ) == if (i == x as int && j == y as int) || cs@.subrange(0, 0).contains(
                        Coordinate { x: i as usize, y: j as usize },
                    ) {
                        Some(p)
                    } else {
                        cell(g0, i, j)
                    } by {
                        assert(cell(*self, i, j) == cell(g1, i, j));
                        assert(!cs@.subrange(0, 0).contains(
                            Coordinate { x: i as usize, y: j as usize },
                        ));
                    }
                }
                let mut k: usize = 0;
                while k < cs.len()
                    invariant
                        k <= cs.len(),
                        self.current_player == opponent(p),
                        grid_taken(g0, *self, x as int, y as int, p, cs@.subrange(0, k as int)),
                    decreases cs.len() - k,
                {
                    let q = cs[k];
                    self.set_position(&q, p);
                    proof {
                        assert(cs@.subrange(0, k as int + 1) =~= cs@.subrange(0, k as int).push(
                            cs@[k as int],
                        ));
                        assert forall|i: int, j: int| in_bounds(i, j) implies #[trigger] cell(
                            *self,
                            i,
                            j,
                        ) == if (i == x as int && j == y as int) || cs@.subrange(
                            0,
                            k as int + 1,
                        ).contains(Coordinate { x: i as usize, y: j as usize }) {
                            Some(p)
                        } else {
                            cell(g0, i, j)
                        } by {
                            lemma_push_contains(
                                cs@.subrange(0, k as int),
                                cs@[k as int],
                                Coordinate { x: i as usize, y: j as usize },
                            );
                        }
                    }
                    k = k + 1;
                }
                proof {
                    assert(cs@.subrange(0, cs@.len() as int) =~= cs@);
                }
                Ok(self.current_player)
            },
            Err(err) => Err(err),
        }
    }

    /// Whether the game is over: neither player has a legal move left.
    pub fn finished(&self) -> (r: bool)
        ensures
            r == game_over(*self),
    {
        let alice_moves = self.valid_moves(Player::Alice);
        let bob_moves = self.valid_moves(Player::Bob);
        proof {
            lemma_no_moves_iff_empty(*self, Player::Alice, alice_moves@);
            lemma_no_moves_iff_empty(*self, Player::Bob, bob_moves@);
        }
        alice_moves.is_empty() && bob_moves.is_empty()
    }

    /// Counts the occupied cells per player: the first entry is the first
    /// player's piece count, the second the second player's.
    #[verifier::loop_isolation(false)]
    pub fn score(&self) -> (r: [i32; 2])
        ensures
            r@.len() == 2,
            r@[0] == count_pieces(*self, Player::Alice),
            r@[1] == count_pieces(*self, Player::Bob),
    {
        let mut alice: i32 = 0;
        let mut bob: i32 = 0;
        let mut x: usize = 0;
        while x < 8
            invariant
                x <= 8,
                alice == grid_count(*self, Player::Alice, x as int),
                bob == grid_count(*self, Player::Bob, x as int),
                0 <= alice <= 8 * (x as int),
                0 <= bob <= 8 * (x as int),
            decreases 8 - x,
        {
            let mut y: usize = 0;
            while y < 8
                invariant
                    x < 8,
                    y <= 8,
                    alice == grid_count(*self, Player::Alice, x as int) + line_count(
                        *self,
                        Player::Alice,
                        x as int,
                        y as int,
                    ),
                    bob == grid_count(*self, Player::Bob, x as int) + line_count(
                        *self,
                        Player::Bob,
                        x as int,
                        y as int,
                    ),
                    0 <= alice <= 8 * (x as int) + y as int,
                    0 <= bob <= 8 * (x as int) + y as int,
                decreases 8 - y,
            {
                match self.position(&Coordinate { x, y }) {
                    None => {},
                    Some(Player::Alice) => {
                        alice = alice + 1;
                    },
                    Some(Player::Bob) => {
                        bob = bob + 1;
                    },
                }
                y = y + 1;
            }
            x = x + 1;
        }
        [alice, bob]
    }

    /// Whether `c` names a cell on the board that holds a piece of `player`.
    pub fn check_position_against_player(&self, c: Option<Coordinate>, player: Player) -> (r:
        bool)
        ensures
            r == player_at(*self, c, player),
    {
        match c {
            None => false,
            Some(q) => {
                if q.x < 8 && q.y < 8 {
                    match self.position(&q) {
                        Some(occupant) => occupant == player,
                        None => false,
                    }
                } else {
                    false
                }
            },
        }
    }
}

} // verus!
