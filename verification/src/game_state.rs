//! Shared game-state data: players, food, and the per-client view of the
//! world that the server fans out once per tick.
//!
//! Positions are integer board coordinates.  All distance tests the game
//! ever makes are strict comparisons of a Euclidean distance against a
//! player size, so they are carried out exactly on squared distances:
//! for nonnegative `s` and `d`, `s > d` holds iff `s*s > d*d`.

use vstd::prelude::*;

verus! {

/// Stable logical handle for a connected player, independent of its
/// transport address.
pub type UserId = u64;

/// A point on the board, in integer coordinates.
#[derive(Clone, Copy, PartialEq, Eq, Structural, Debug)]
pub struct Position {
    pub x: i32,
    pub y: i32,
}

/// An alive player: where it stands and how big it is.
#[derive(Clone, Copy, PartialEq, Eq, Structural, Debug)]
pub struct Player {
    pub position: Position,
    pub size: u16,
}

/// One player slot of the world: alive with a body, or dead.
#[derive(Clone, Copy, PartialEq, Eq, Structural, Debug)]
pub enum PlayerState {
    Alive(Player),
    Dead,
}

/// A piece of food waiting on the board.
#[derive(Clone, Copy, PartialEq, Eq, Structural, Debug)]
pub struct Food {
    pub position: Position,
}

/// The squared Euclidean distance between two positions.
pub open spec fn dist_sq(a: Position, b: Position) -> int {
    (a.x - b.x) * (a.x - b.x) + (a.y - b.y) * (a.y - b.y)
}

/// Whether a body of size `s` at `a` reaches past a target at `b`:
/// exactly the strict comparison `s > distance(a, b)`, taken on squares.
pub open spec fn reaches(s: u16, a: Position, b: Position) -> bool {
    (s as int) * (s as int) > dist_sq(a, b)
}

/// A square of a value bounded by `b` in magnitude lies in `[0, b*b]`.
proof fn lemma_square_bound(v: int, b: int)
    requires
        -b <= v <= b,
        0 <= b,
    ensures
        0 <= v * v <= b * b,
{
    assert(0 <= v * v <= b * b) by (nonlinear_arith)
        requires
            -b <= v <= b,
            0 <= b;
}

/// Computes the squared distance between `a` and `b`.
///
/// The difference of `i32` coordinates fits in `i64`, each square is
/// below `2^64`, so the sum fits comfortably in `i128`.
pub fn dist_sq_exec(a: Position, b: Position) -> (r: i128)
    ensures
        r as int == dist_sq(a, b),
{
    let dx: i64 = (a.x as i64) - (b.x as i64);
    let dy: i64 = (a.y as i64) - (b.y as i64);
    proof {
        lemma_square_bound(dx as int, 0x1_0000_0000);
        lemma_square_bound(dy as int, 0x1_0000_0000);
    }
    (dx as i128) * (dx as i128) + (dy as i128) * (dy as i128)
}

/// Decides `reaches(s, a, b)` exactly.
pub fn reaches_exec(s: u16, a: Position, b: Position) -> (r: bool)
    ensures
        r == reaches(s, a, b),
{
    let d2 = dist_sq_exec(a, b);
    proof {
        lemma_square_bound(s as int, 0xffff);
    }
    (s as i128) * (s as i128) > d2
}

/// The per-identity snapshot sent to a client once per tick: its own
/// slot index, every player slot in stable order, and all food.
#[derive(Clone, Debug)]
pub struct GameStateUpdate {
    /// Index of the recipient's own slot in `players`.
    pub you: usize,
    pub players: Vec<PlayerState>,
    pub foods: Vec<Food>,
}

/// What a client keeps of the last snapshot: its own slot pulled out of
/// the player list, everyone else, and the food.
pub struct ClientGameState {
    pub player: PlayerState,
    pub other_players: Vec<PlayerState>,
    pub foods: Vec<Food>,
}

impl ClientGameState {
    /// A client that has not yet received a snapshot: dead, alone, no food.
    pub fn new() -> (r: Self)
        ensures
            r.player == PlayerState::Dead,
            r.other_players@ == Seq::<PlayerState>::empty(),
            r.foods@ == Seq::<Food>::empty(),
    {
        ClientGameState { player: PlayerState::Dead, other_players: Vec::new(), foods: Vec::new() }
    }

    /// Replaces the whole client state with a fresh snapshot: the slot at
    /// index `you` becomes the own player, the rest stay in order.
    pub fn update_with_state(&mut self, update: GameStateUpdate)
        requires
            update.you < update.players@.len(),
        ensures
            final(self).player == update.players@[update.you as int],
            final(self).other_players@ == update.players@.remove(update.you as int),
            final(self).foods@ == update.foods@,
    {
        let mut players = update.players;
        let this = players.remove(update.you);
        self.player = this;
        self.other_players = players;
        self.foods = update.foods;
    }
}

} // verus!
