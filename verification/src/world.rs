//! The authoritative world state and its tick simulation.
//!
//! One `ServerGameState` owns every entity: a flat array of player
//! slots (deaths tag a slot `Dead` rather than removing it, so slot
//! indices stay stable), the identity-to-slot map, the food on the
//! board, and the board bounds.  Movement and respawn intents are
//! applied as they arrive; once per fixed interval the tick step
//! resolves pairwise consumption and food in a deterministic order.

use vstd::prelude::*;
use std::collections::HashMap;
use crate::game_state::{
    reaches,
    reaches_exec,
    Food,
    GameStateUpdate,
    Player,
    PlayerState,
    Position,
    UserId,
};

verus! {

broadcast use vstd::std_specs::hash::group_hash_axioms;

/// Size a player respawns with.
pub const START_SIZE: u16 = 20;

/// How much a player grows for each food it consumes.
pub const FOOD_GROWTH: u16 = 1;

/// Out of 100: the chance that one tick spawns a food.
pub const FOOD_SPAWN_PERCENT: u32 = 5;

/// The authoritative world: player slots in stable order, the
/// identity-to-slot map, the food, and the board bounds.
pub struct ServerGameState {
    pub user_id_to_index: HashMap<UserId, usize>,
    pub players: Vec<PlayerState>,
    pub foods: Vec<Food>,
    pub board_size: Position,
}

/// Whether a position lies on a board of the given bounds.
pub open spec fn within_board(p: Position, board: Position) -> bool {
    0 <= p.x < board.x && 0 <= p.y < board.y
}

/// Well-formedness of the slot map: every mapped identity points at a
/// real slot, and no two identities share one.
pub open spec fn slot_map_wf(players: Seq<PlayerState>, m: Map<UserId, usize>) -> bool {
    &&& forall|id: UserId| m.contains_key(id) ==> (#[trigger] m[id]) < players.len()
    &&& forall|id1: UserId, id2: UserId|
        m.contains_key(id1) && m.contains_key(id2) && id1 != id2 ==> #[trigger] m[id1]
            != #[trigger] m[id2]
}

/// What a respawn request does: an identity with a dead slot comes back
/// alive at `pos` with the starting size; an identity with a live slot
/// is left exactly as it is; an unknown identity gets a fresh slot
/// appended and mapped.
pub open spec fn spec_spawn(
    players: Seq<PlayerState>,
    m: Map<UserId, usize>,
    id: UserId,
    pos: Position,
) -> (Seq<PlayerState>, Map<UserId, usize>) {
    let fresh = PlayerState::Alive(Player { position: pos, size: START_SIZE });
    if m.contains_key(id) {
        if players[m[id] as int] is Dead {
            (players.update(m[id] as int, fresh), m)
        } else {
            (players, m)
        }
    } else {
        (players.push(fresh), m.insert(id, players.len() as usize))
    }
}

/// What a movement intent does: the position of the identity's slot is
/// replaced if that slot is alive; otherwise nothing changes.
pub open spec fn spec_move(
    players: Seq<PlayerState>,
    m: Map<UserId, usize>,
    id: UserId,
    new_pos: Position,
) -> Seq<PlayerState> {
    if m.contains_key(id) && players[m[id] as int] is Alive {
        let p = players[m[id] as int]->0;
        players.update(m[id] as int, PlayerState::Alive(Player { position: new_pos, size: p.size }))
    } else {
        players
    }
}

/// Whether `post` is the world a respawn request for `id` produces from
/// `pre` when the randomly drawn position came out as `pos`: the
/// position lies on the board and the spawn transition holds exactly.
pub open spec fn spawn_outcome(
    pre: ServerGameState,
    post: ServerGameState,
    id: UserId,
    pos: Position,
) -> bool {
    let r = spec_spawn(pre.players@, pre.user_id_to_index@, id, pos);
    &&& within_board(pos, pre.board_size)
    &&& post.players@ == r.0
    &&& post.user_id_to_index@ == r.1
    &&& post.foods@ == pre.foods@
    &&& post.board_size == pre.board_size
}

impl ServerGameState {
    /// The world is well-formed: a sound slot map and a positive board.
    pub open spec fn wf(&self) -> bool {
        &&& slot_map_wf(self.players@, self.user_id_to_index@)
        &&& 0 < self.board_size.x
        &&& 0 < self.board_size.y
    }

    /// An empty world on a 200 by 200 board.
    pub fn new() -> (r: ServerGameState)
        ensures
            r.wf(),
            r.user_id_to_index@ == Map::<UserId, usize>::empty(),
            r.players@ == Seq::<PlayerState>::empty(),
            r.foods@ == Seq::<Food>::empty(),
            r.board_size == (Position { x: 200, y: 200 }),
    {
        ServerGameState {
            user_id_to_index: HashMap::new(),
            players: Vec::new(),
            foods: Vec::new(),
            board_size: Position { x: 200, y: 200 },
        }
    }

    /// A uniformly drawn position on the board.  Which one comes out is
    /// up to the generator; only the bounds are promised.
    fn random_position(&self) -> (p: Position)
        requires
            self.wf(),
        ensures
            within_board(p, self.board_size),
    {
        let rx = crate::rng::random_u32();
        let ry = crate::rng::random_u32();
        let x = (rx % (self.board_size.x as u32)) as i32;
        let y = (ry % (self.board_size.y as u32)) as i32;
        Position { x, y }
    }

    /// Respawns `id` at a chosen position: dead slots come back alive,
    /// live slots stay untouched, unknown identities get a fresh slot.
    /// Afterward `id` maps to a living player in every case.
    pub fn spawn_player_at(&mut self, id: UserId, pos: Position)
        requires
            old(self).wf(),
        ensures
            final(self).wf(),
            ({
                let r = spec_spawn(old(self).players@, old(self).user_id_to_index@, id, pos);
                final(self).players@ == r.0 && final(self).user_id_to_index@ == r.1
            }),
            final(self).foods@ == old(self).foods@,
            final(self).board_size == old(self).board_size,
            final(self).user_id_to_index@.contains_key(id),
            final(self).players@[final(self).user_id_to_index@[id] as int] is Alive,
    {
        let state = PlayerState::Alive(Player { position: pos, size: START_SIZE });
        let existing: Option<usize> = match self.user_id_to_index.get(&id) {
            Some(i) => Some(*i),
            None => None,
        };
        if let Some(index) = existing {
            if let PlayerState::Dead = self.players[index] {
                self.players[index] = state;
            }
            return;
        }
        let slot = self.players.len();
        self.user_id_to_index.insert(id, slot);
        self.players.push(state);
    }

    /// Respawns `id` at a random board position, as `spec_spawn` says
    /// for whatever position was drawn.
    pub fn spawn_player(&mut self, id: UserId)
        requires
            old(self).wf(),
        ensures
            final(self).wf(),
            final(self).foods@ == old(self).foods@,
            final(self).board_size == old(self).board_size,
            exists|pos: Position| #[trigger] spawn_outcome(*old(self), *final(self), id, pos),
            final(self).user_id_to_index@.contains_key(id),
            final(self).players@[final(self).user_id_to_index@[id] as int] is Alive,
    {
        let pos = self.random_position();
        self.spawn_player_at(id, pos);
        proof {
            assert(spawn_outcome(*old(self), *self, id, pos));
        }
    }

    /// Applies a movement intent.  An intent for an identity with no
    /// slot or a dead slot is a no-op, not an error.
    pub fn move_player(&mut self, id: UserId, new_pos: Position)
        requires
            old(self).wf(),
        ensures
            final(self).wf(),
            final(self).players@ == spec_move(
                old(self).players@,
                old(self).user_id_to_index@,
                id,
                new_pos,
            ),
            final(self).user_id_to_index@ == old(self).user_id_to_index@,
            final(self).foods@ == old(self).foods@,
            final(self).board_size == old(self).board_size,
    {
        let existing: Option<usize> = match self.user_id_to_index.get(&id) {
            Some(i) => Some(*i),
            None => None,
        };
        if let Some(index) = existing {
            if let PlayerState::Alive(player) = self.players[index] {
                self.players[index] = PlayerState::Alive(
                    Player { position: new_pos, size: player.size },
                );
            }
        }
    }

    /// Drops one food at a random board position.
    pub fn spawn_food(&mut self)
        requires
            old(self).wf(),
        ensures
            final(self).wf(),
            exists|f: Food|
                #![auto]
                within_board(f.position, old(self).board_size) && final(self).foods@ == old(
                    self,
                ).foods@.push(f),
            final(self).players@ == old(self).players@,
            final(self).user_id_to_index@ == old(self).user_id_to_index@,
            final(self).board_size == old(self).board_size,
    {
        let pos = self.random_position();
        self.foods.push(Food { position: pos });
    }

    /// Builds the snapshot for one registered identity: its own slot
    /// index plus a private copy of every player slot and every food.
    pub fn to_player(&self, id: &UserId) -> (r: GameStateUpdate)
        requires
            self.wf(),
            self.user_id_to_index@.contains_key(*id),
        ensures
            r.you == self.user_id_to_index@[*id],
            r.players@ == self.players@,
            r.foods@ == self.foods@,
    {
        let index = *self.user_id_to_index.get(id).unwrap();
        GameStateUpdate {
            you: index,
            players: copy_players(&self.players),
            foods: copy_foods(&self.foods),
        }
    }
}

/// A size grown by `add`, capped at the largest representable size.
pub open spec fn grown(size: u16, add: u16) -> u16 {
    if size + add > u16::MAX {
        u16::MAX
    } else {
        (size + add) as u16
    }
}

/// One pairwise consumption check between slots `i` and `j`, `i` first
/// in slot order.  If both are alive and the larger one's size exceeds
/// the distance between them, the larger absorbs the smaller's size and
/// the smaller dies; a tie in size favors `i`.  Anything else leaves
/// both exactly as they were.
pub open spec fn eat_pair(ps: Seq<PlayerState>, i: int, j: int) -> Seq<PlayerState> {
    if 0 <= i < ps.len() && 0 <= j < ps.len() && i != j && ps[i] is Alive && ps[j] is Alive {
        let a = ps[i]->0;
        let b = ps[j]->0;
        if a.size >= b.size && reaches(a.size, a.position, b.position) {
            ps.update(
                i,
                PlayerState::Alive(Player { position: a.position, size: grown(a.size, b.size) }),
            ).update(j, PlayerState::Dead)
        } else if b.size > a.size && reaches(b.size, b.position, a.position) {
            ps.update(
                j,
                PlayerState::Alive(Player { position: b.position, size: grown(b.size, a.size) }),
            ).update(i, PlayerState::Dead)
        } else {
            ps
        }
    } else {
        ps
    }
}

/// A body at `pos` of size `size` walking the food list front to back:
/// each food within reach is consumed (removed) and grows the body, so
/// later foods are checked against the grown size; the rest stay in
/// order.  Returns the final size and the remaining food.
pub open spec fn eat_foods(pos: Position, size: u16, foods: Seq<Food>) -> (u16, Seq<Food>)
    decreases foods.len(),
{
    if foods.len() == 0 {
        (size, foods)
    } else if reaches(size, pos, foods[0].position) {
        eat_foods(pos, grown(size, FOOD_GROWTH), foods.drop_first())
    } else {
        let rest = eat_foods(pos, size, foods.drop_first());
        (rest.0, seq![foods[0]] + rest.1)
    }
}

/// The food phase for one slot: if it is still alive, it eats what it
/// reaches and grows accordingly; a dead slot changes nothing.
pub open spec fn feed_slot(ps: Seq<PlayerState>, foods: Seq<Food>, slot: int) -> (
    Seq<PlayerState>,
    Seq<Food>,
) {
    if 0 <= slot < ps.len() && ps[slot] is Alive {
        let p = ps[slot]->0;
        let r = eat_foods(p.position, p.size, foods);
        (ps.update(slot, PlayerState::Alive(Player { position: p.position, size: r.0 })), r.1)
    } else {
        (ps, foods)
    }
}

/// The pair checks of round `i`: slot `alive[i]` against each later
/// slot of the tick-start alive list, in order.
pub open spec fn run_pairs(ps: Seq<PlayerState>, alive: Seq<usize>, i: int, j: int) -> Seq<
    PlayerState,
>
    decreases alive.len() - j,
{
    if !(0 <= j < alive.len()) || !(0 <= i < alive.len()) {
        ps
    } else {
        run_pairs(eat_pair(ps, alive[i] as int, alive[j] as int), alive, i, j + 1)
    }
}

/// The rounds of one tick, from round `i` on: round `i` runs the pair
/// checks of slot `alive[i]`, then its food phase, then the next round.
pub open spec fn run_rounds(ps: Seq<PlayerState>, foods: Seq<Food>, alive: Seq<usize>, i: int) -> (
    Seq<PlayerState>,
    Seq<Food>,
)
    decreases alive.len() - i,
{
    if !(0 <= i < alive.len()) {
        (ps, foods)
    } else {
        let ps1 = run_pairs(ps, alive, i, i + 1);
        let r = feed_slot(ps1, foods, alive[i] as int);
        run_rounds(r.0, r.1, alive, i + 1)
    }
}

/// The indices of the alive slots among the first `n`, in slot order.
pub open spec fn alive_indices_upto(ps: Seq<PlayerState>, n: int) -> Seq<usize>
    decreases n,
{
    if n <= 0 {
        Seq::empty()
    } else {
        alive_indices_upto(ps, n - 1) + (if ps[n - 1] is Alive {
            seq![(n - 1) as usize]
        } else {
            Seq::empty()
        })
    }
}

/// The indices of the alive slots, in slot order.
pub open spec fn alive_indices(ps: Seq<PlayerState>) -> Seq<usize> {
    alive_indices_upto(ps, ps.len() as int)
}

/// One whole tick on given players and food: if nobody is alive the
/// tick does nothing; otherwise every slot alive at tick start gets its
/// round, in slot order.
pub open spec fn spec_tick(ps: Seq<PlayerState>, foods: Seq<Food>) -> (Seq<PlayerState>, Seq<Food>) {
    let alive = alive_indices(ps);
    if alive.len() == 0 {
        (ps, foods)
    } else {
        run_rounds(ps, foods, alive, 0)
    }
}

/// The alive-index list of any prefix is in bounds and strictly
/// increasing.
proof fn lemma_alive_indices_upto(ps: Seq<PlayerState>, n: int)
    requires
        0 <= n <= ps.len() <= usize::MAX,
    ensures
        forall|k: int|
            0 <= k < alive_indices_upto(ps, n).len() ==> (#[trigger] alive_indices_upto(ps, n)[k])
                < n,
        forall|k1: int, k2: int|
            0 <= k1 < k2 < alive_indices_upto(ps, n).len() ==> alive_indices_upto(ps, n)[k1]
                < alive_indices_upto(ps, n)[k2],
        forall|k: int|
            0 <= k < alive_indices_upto(ps, n).len() ==> ps[alive_indices_upto(ps, n)[k] as int]
                is Alive,
    decreases n,
{
    if n > 0 {
        lemma_alive_indices_upto(ps, n - 1);
        let prev = alive_indices_upto(ps, n - 1);
        let cur = alive_indices_upto(ps, n);
        if ps[n - 1] is Alive {
            assert(cur == prev + seq![(n - 1) as usize]);
            assert(forall|k: int| 0 <= k < prev.len() ==> cur[k] == prev[k]);
            assert(cur[cur.len() - 1] == (n - 1) as usize);
            assert forall|k1: int, k2: int| 0 <= k1 < k2 < cur.len() implies cur[k1] < cur[k2] by {
                assert(cur[k1] == prev[k1]);
                if k2 < prev.len() {
                    assert(cur[k2] == prev[k2]);
                    assert(prev[k1] < prev[k2]);
                } else {
                    assert(cur[k2] == (n - 1) as usize);
                    assert(prev[k1] < n - 1);
                }
                assert(cur[k1] < cur[k2]);
            }
            assert forall|k: int| 0 <= k < cur.len() implies ps[cur[k] as int] is Alive by {
                if k < prev.len() {
                    assert(cur[k] == prev[k]);
                    assert(ps[prev[k] as int] is Alive);
                } else {
                    assert(cur[k] == (n - 1) as usize);
                }
                assert(ps[cur[k] as int] is Alive);
            }
        } else {
            assert(cur =~= prev);
        }
    }
}

/// Collects the indices of the alive slots, in slot order.
fn collect_alive(players: &Vec<PlayerState>) -> (r: Vec<usize>)
    ensures
        r@ == alive_indices(players@),
{
    let mut r: Vec<usize> = Vec::new();
    let mut n: usize = 0;
    while n < players.len()
        invariant
            n <= players@.len(),
            r@ == alive_indices_upto(players@, n as int),
        decreases players@.len() - n,
    {
        if let PlayerState::Alive(_) = players[n] {
            r.push(n);
            proof {
                assert(r@ =~= alive_indices_upto(players@, n as int) + seq![n]);
            }
        } else {
            proof {
                assert(alive_indices_upto(players@, n + 1) =~= alive_indices_upto(
                    players@,
                    n as int,
                ));
            }
        }
        n = n + 1;
    }
    r
}

/// Runs one pairwise consumption check between two distinct slots,
/// exactly as `eat_pair` says.
fn eat_pair_exec(players: &mut Vec<PlayerState>, i: usize, j: usize)
    requires
        i < old(players)@.len(),
        j < old(players)@.len(),
        i != j,
    ensures
        final(players)@ == eat_pair(old(players)@, i as int, j as int),
{
    let a_state = players[i];
    let b_state = players[j];
    if let PlayerState::Alive(a) = a_state {
        if let PlayerState::Alive(b) = b_state {
            if a.size >= b.size && reaches_exec(a.size, a.position, b.position) {
                players[i] = PlayerState::Alive(
                    Player { position: a.position, size: a.size.saturating_add(b.size) },
                );
                players[j] = PlayerState::Dead;
            } else if b.size > a.size && reaches_exec(b.size, b.position, a.position) {
                players[j] = PlayerState::Alive(
                    Player { position: b.position, size: b.size.saturating_add(a.size) },
                );
                players[i] = PlayerState::Dead;
            }
        }
    }
}

/// Runs the food phase for one slot, exactly as `feed_slot` says: an
/// alive slot eats every food it reaches, front to back, growing as it
/// goes; the foods it does not reach survive in order.
fn feed_slot_exec(players: &mut Vec<PlayerState>, foods: &mut Vec<Food>, slot: usize)
    requires
        slot < old(players)@.len(),
    ensures
        ({
            let r = feed_slot(old(players)@, old(foods)@, slot as int);
            final(players)@ == r.0 && final(foods)@ == r.1
        }),
{
    let p = match players[slot] {
        PlayerState::Alive(p) => p,
        PlayerState::Dead => {
            return ;
        },
    };
    let ghost foods0 = foods@;
    let ghost whole = eat_foods(p.position, p.size, foods0);
    let mut size = p.size;
    let mut kept: Vec<Food> = Vec::new();
    let mut k: usize = 0;
    proof {
        assert(foods0.skip(0) =~= foods0);
        assert(Seq::<Food>::empty() + whole.1 =~= whole.1);
    }
    while k < foods.len()
        invariant
            k <= foods@.len(),
            foods@ == foods0,
            whole == eat_foods(p.position, p.size, foods0),
            ({
                let rest = eat_foods(p.position, size, foods0.skip(k as int));
                whole.0 == rest.0 && whole.1 == kept@ + rest.1
            }),
        decreases foods@.len() - k,
    {
        let f = foods[k];
        proof {
            assert(foods0.skip(k as int)[0] == foods0[k as int]);
            assert(foods0.skip(k as int).drop_first() =~= foods0.skip(k + 1));
        }
        if reaches_exec(size, p.position, f.position) {
            size = size.saturating_add(FOOD_GROWTH);
        } else {
            let ghost kept0 = kept@;
            kept.push(f);
            proof {
                let rest = eat_foods(p.position, size, foods0.skip(k + 1));
                assert(kept@ + rest.1 =~= kept0 + (seq![f] + rest.1));
            }
        }
        k = k + 1;
    }
    proof {
        assert(foods0.skip(foods0.len() as int) =~= Seq::<Food>::empty());
        assert(whole.1 =~= kept@);
    }
    players[slot] = PlayerState::Alive(Player { position: p.position, size });
    *foods = kept;
}

/// Whether `post` is the world `spec_tick` produces from `pre` when the
/// tick's random food spawn came out as `spawned`: a spawned food lies
/// on the board, and players and foods are exactly the tick's result on
/// the old state with it appended.
pub open spec fn tick_outcome(
    pre: ServerGameState,
    post: ServerGameState,
    spawned: Option<Food>,
) -> bool {
    let base = match spawned {
        Some(f) => pre.foods@.push(f),
        None => pre.foods@,
    };
    let r = spec_tick(pre.players@, base);
    &&& (spawned matches Some(f) ==> within_board(f.position, pre.board_size))
    &&& post.players@ == r.0
    &&& post.foods@ == r.1
}

impl ServerGameState {
    /// One tick on given food-spawn input: appends the spawned food, if
    /// any, and — unless nobody is alive — runs every round of the tick,
    /// exactly as `spec_tick` says.  The slot map never changes.
    pub fn tick_step(&mut self, spawned: Option<Food>)
        requires
            old(self).wf(),
        ensures
            final(self).wf(),
            final(self).user_id_to_index@ == old(self).user_id_to_index@,
            final(self).board_size == old(self).board_size,
            ({
                let base = match spawned {
                    Some(f) => old(self).foods@.push(f),
                    None => old(self).foods@,
                };
                let r = spec_tick(old(self).players@, base);
                final(self).players@ == r.0 && final(self).foods@ == r.1
            }),
    {
        if let Some(f) = spawned {
            self.foods.push(f);
        }
        let alive = collect_alive(&self.players);
        if alive.len() == 0 {
            return ;
        }
        let n_slots = self.players.len();
        let ghost ps0 = self.players@;
        let ghost fs0 = self.foods@;
        proof {
            assert(ps0.len() == n_slots);
            lemma_alive_indices_upto(ps0, ps0.len() as int);
        }
        let mut i: usize = 0;
        while i < alive.len()
            invariant
                i <= alive@.len(),
                alive@ == alive_indices(ps0),
                forall|k: int| 0 <= k < alive@.len() ==> (#[trigger] alive@[k]) < ps0.len(),
                forall|k1: int, k2: int|
                    0 <= k1 < k2 < alive@.len() ==> alive@[k1] < alive@[k2],
                self.players@.len() == ps0.len(),
                self.user_id_to_index@ == old(self).user_id_to_index@,
                self.board_size == old(self).board_size,
                run_rounds(self.players@, self.foods@, alive@, i as int) == run_rounds(
                    ps0,
                    fs0,
                    alive@,
                    0,
                ),
            decreases alive@.len() - i,
        {
            let ghost ps_round = self.players@;
            let ghost fs_round = self.foods@;
            let mut j: usize = i + 1;
            while j < alive.len()
                invariant
                    i < alive@.len(),
                    i + 1 <= j <= alive@.len(),
                    alive@ == alive_indices(ps0),
                    forall|k: int| 0 <= k < alive@.len() ==> (#[trigger] alive@[k]) < ps0.len(),
                    forall|k1: int, k2: int|
                        0 <= k1 < k2 < alive@.len() ==> alive@[k1] < alive@[k2],
                    self.players@.len() == ps0.len(),
                    self.foods@ == fs_round,
                    self.user_id_to_index@ == old(self).user_id_to_index@,
                    self.board_size == old(self).board_size,
                    run_pairs(self.players@, alive@, i as int, j as int) == run_pairs(
                        ps_round,
                        alive@,
                        i as int,
                        i as int + 1,
                    ),
                decreases alive@.len() - j,
            {
                eat_pair_exec(&mut self.players, alive[i], alive[j]);
                j = j + 1;
            }
            feed_slot_exec(&mut self.players, &mut self.foods, alive[i]);
            i = i + 1;
        }
    }

    /// One tick of the real clock: with a fixed chance a food appears at
    /// a random board position, then the tick rounds run.  Whatever the
    /// generator did, the result is `spec_tick` of the old state with at
    /// most one food appended.
    pub fn tick(&mut self)
        requires
            old(self).wf(),
        ensures
            final(self).wf(),
            final(self).user_id_to_index@ == old(self).user_id_to_index@,
            final(self).board_size == old(self).board_size,
            exists|spawned: Option<Food>| #[trigger] tick_outcome(*old(self), *final(self), spawned),
    {
        let spawned: Option<Food> = if crate::rng::random_u32() % 100 < FOOD_SPAWN_PERCENT {
            Some(Food { position: self.random_position() })
        } else {
            None
        };
        self.tick_step(spawned);
        proof {
            assert(tick_outcome(*old(self), *self, spawned));
        }
    }
}

/// How long the tick scheduler sleeps after finishing a tick: the
/// remainder of the fixed interval, and zero if the tick overran it —
/// an overrun tick is followed immediately, and no backlog of sleeps
/// ever builds up.
pub fn tick_delay(elapsed_ms: u64, interval_ms: u64) -> (r: u64)
    ensures
        r == if elapsed_ms >= interval_ms {
            0u64
        } else {
            (interval_ms - elapsed_ms) as u64
        },
{
    if elapsed_ms >= interval_ms {
        0
    } else {
        interval_ms - elapsed_ms
    }
}

/// Slot-for-slot relation of one tick's player lists: no slot comes
/// back from the dead, and a slot that survives has not shrunk.
pub open spec fn no_revival_no_shrink(pre: Seq<PlayerState>, post: Seq<PlayerState>) -> bool {
    &&& post.len() == pre.len()
    &&& forall|k: int|
        0 <= k < pre.len() ==> ((#[trigger] post[k]) is Alive ==> pre[k] is Alive
            && post[k]->0.size >= pre[k]->0.size)
}

/// The relation composes.
proof fn lemma_mono_trans(a: Seq<PlayerState>, b: Seq<PlayerState>, c: Seq<PlayerState>)
    requires
        no_revival_no_shrink(a, b),
        no_revival_no_shrink(b, c),
    ensures
        no_revival_no_shrink(a, c),
{
}

/// Eating food only grows a body.
proof fn lemma_eat_foods_size(pos: Position, size: u16, foods: Seq<Food>)
    ensures
        eat_foods(pos, size, foods).0 >= size,
    decreases foods.len(),
{
    if foods.len() == 0 {
    } else if reaches(size, pos, foods[0].position) {
        lemma_eat_foods_size(pos, grown(size, FOOD_GROWTH), foods.drop_first());
    } else {
        lemma_eat_foods_size(pos, size, foods.drop_first());
    }
}

/// One pair check neither revives nor shrinks anybody.
proof fn lemma_eat_pair_mono(ps: Seq<PlayerState>, i: int, j: int)
    ensures
        no_revival_no_shrink(ps, eat_pair(ps, i, j)),
{
}

/// A whole pair round neither revives nor shrinks anybody.
proof fn lemma_run_pairs_mono(ps: Seq<PlayerState>, alive: Seq<usize>, i: int, j: int)
    ensures
        no_revival_no_shrink(ps, run_pairs(ps, alive, i, j)),
    decreases alive.len() - j,
{
    if 0 <= j < alive.len() && 0 <= i < alive.len() {
        let ps1 = eat_pair(ps, alive[i] as int, alive[j] as int);
        lemma_eat_pair_mono(ps, alive[i] as int, alive[j] as int);
        lemma_run_pairs_mono(ps1, alive, i, j + 1);
        lemma_mono_trans(ps, ps1, run_pairs(ps1, alive, i, j + 1));
    }
}

/// A food phase neither revives nor shrinks anybody.
proof fn lemma_feed_slot_mono(ps: Seq<PlayerState>, foods: Seq<Food>, slot: int)
    ensures
        no_revival_no_shrink(ps, feed_slot(ps, foods, slot).0),
{
    if 0 <= slot < ps.len() && ps[slot] is Alive {
        let p = ps[slot]->0;
        lemma_eat_foods_size(p.position, p.size, foods);
    }
}

/// The rounds from `i` on neither revive nor shrink anybody.
proof fn lemma_run_rounds_mono(ps: Seq<PlayerState>, foods: Seq<Food>, alive: Seq<usize>, i: int)
    ensures
        no_revival_no_shrink(ps, run_rounds(ps, foods, alive, i).0),
    decreases alive.len() - i,
{
    if 0 <= i < alive.len() {
        let ps1 = run_pairs(ps, alive, i, i + 1);
        let r = feed_slot(ps1, foods, alive[i] as int);
        lemma_run_pairs_mono(ps, alive, i, i + 1);
        lemma_feed_slot_mono(ps1, foods, alive[i] as int);
        lemma_run_rounds_mono(r.0, r.1, alive, i + 1);
        lemma_mono_trans(ps, ps1, r.0);
        lemma_mono_trans(ps, r.0, run_rounds(r.0, r.1, alive, i + 1).0);
    }
}

/// Law: within a tick, state only moves forward.  No dead slot comes
/// back alive, and every player that survives the tick is at least as
/// big as it was — a size decreases only by being discarded at death.
pub proof fn lemma_tick_no_revival_no_shrink(ps: Seq<PlayerState>, foods: Seq<Food>)
    ensures
        no_revival_no_shrink(ps, spec_tick(ps, foods).0),
{
    let alive = alive_indices(ps);
    if alive.len() != 0 {
        lemma_run_rounds_mono(ps, foods, alive, 0);
    }
}

/// Law: a movement intent for an identity with no alive slot is a
/// no-op — the player list is exactly what it was.
pub proof fn lemma_move_without_alive_slot(
    players: Seq<PlayerState>,
    m: Map<UserId, usize>,
    id: UserId,
    new_pos: Position,
)
    requires
        !(m.contains_key(id) && players[m[id] as int] is Alive),
    ensures
        spec_move(players, m, id, new_pos) == players,
{
}

/// Law: respawning is idempotent.  A second respawn request for an
/// identity whose slot is already alive — in particular, right after a
/// first one — changes nothing, wherever the two requested positions
/// fall.
pub proof fn lemma_respawn_idempotent(
    players: Seq<PlayerState>,
    m: Map<UserId, usize>,
    id: UserId,
    p1: Position,
    p2: Position,
)
    requires
        slot_map_wf(players, m),
        players.len() <= usize::MAX,
    ensures
        ({
            let r1 = spec_spawn(players, m, id, p1);
            spec_spawn(r1.0, r1.1, id, p2) == r1
        }),
{
    let r1 = spec_spawn(players, m, id, p1);
    if m.contains_key(id) {
        assert(r1.0[m[id] as int] is Alive);
    } else {
        assert(r1.1[id] == players.len() as usize);
        assert(r1.0[players.len() as int] is Alive);
    }
}

/// Law: pairwise consumption is decided by size against distance.  For
/// two alive players alone on the board with no food, one tick leaves
/// the smaller dead and grows the larger by the smaller's size exactly
/// when the larger's size exceeds their distance (`reaches` is the
/// strict comparison of size against Euclidean distance, taken on
/// squares); a tie in size favors the first slot.  When the larger does
/// not reach the smaller, the pair is untouched.
pub proof fn lemma_pair_consumption(a: Player, b: Player)
    requires
        a.size + b.size <= u16::MAX,
    ensures
        ({
            let ps = seq![PlayerState::Alive(a), PlayerState::Alive(b)];
            let r = spec_tick(ps, Seq::<Food>::empty());
            &&& r.1 == Seq::<Food>::empty()
            &&& (a.size >= b.size && reaches(a.size, a.position, b.position) ==> r.0 == seq![
                PlayerState::Alive(
                    Player { position: a.position, size: (a.size + b.size) as u16 },
                ),
                PlayerState::Dead,
            ])
            &&& (b.size > a.size && reaches(b.size, b.position, a.position) ==> r.0 == seq![
                PlayerState::Dead,
                PlayerState::Alive(
                    Player { position: b.position, size: (a.size + b.size) as u16 },
                ),
            ])
            &&& (!(a.size >= b.size && reaches(a.size, a.position, b.position)) && !(b.size > a.size
                && reaches(b.size, b.position, a.position)) ==> r.0 == ps)
        }),
{
    let ps = seq![PlayerState::Alive(a), PlayerState::Alive(b)];
    let fs = Seq::<Food>::empty();
    assert(alive_indices_upto(ps, 0) =~= Seq::<usize>::empty());
    assert(alive_indices_upto(ps, 1) =~= seq![0usize]);
    assert(alive_indices_upto(ps, 2) =~= seq![0usize, 1usize]);
    let alive = alive_indices(ps);
    assert(alive =~= seq![0usize, 1usize]);
    let p1 = eat_pair(ps, 0, 1);
    assert(run_pairs(ps, alive, 0, 1) == run_pairs(p1, alive, 0, 2));
    assert(run_pairs(p1, alive, 0, 2) == p1);
    assert(p1.len() == 2);
    let f0 = feed_slot(p1, fs, 0);
    assert(eat_foods(a.position, a.size, fs) == (a.size, fs));
    if p1[0] is Alive {
        assert(p1.update(0, p1[0]) =~= p1);
        assert(f0 == (p1, fs));
    } else {
        assert(f0 == (p1, fs));
    }
    let p2 = run_pairs(f0.0, alive, 1, 2);
    assert(p2 == f0.0);
    let f1 = feed_slot(p2, f0.1, 1);
    if p2[1] is Alive {
        assert(p2.update(1, p2[1]) =~= p2);
        assert(f1 == (p2, f0.1));
    } else {
        assert(f1 == (p2, f0.1));
    }
    assert(run_rounds(ps, fs, alive, 0) == run_rounds(f0.0, f0.1, alive, 1));
    assert(run_rounds(f0.0, f0.1, alive, 1) == run_rounds(f1.0, f1.1, alive, 2));
    assert(run_rounds(f1.0, f1.1, alive, 2) == (f1.0, f1.1));
    assert(spec_tick(ps, fs) == (f1.0, f1.1));
    if a.size >= b.size && reaches(a.size, a.position, b.position) {
        assert(p1 =~= seq![
            PlayerState::Alive(Player { position: a.position, size: (a.size + b.size) as u16 }),
            PlayerState::Dead,
        ]);
    } else if b.size > a.size && reaches(b.size, b.position, a.position) {
        assert(p1 =~= seq![
            PlayerState::Dead,
            PlayerState::Alive(Player { position: b.position, size: (a.size + b.size) as u16 }),
        ]);
    } else {
        assert(p1 == ps);
    }
}

/// Law: a lone player consumes a food exactly when its size exceeds the
/// distance to it: the food disappears and the player grows by the
/// fixed increment; a food out of reach survives the tick untouched.
pub proof fn lemma_food_consumption(p: Player, f: Food)
    requires
        p.size < u16::MAX,
    ensures
        ({
            let ps = seq![PlayerState::Alive(p)];
            let fs = seq![f];
            let r = spec_tick(ps, fs);
            &&& (reaches(p.size, p.position, f.position) ==> r.0 == seq![
                PlayerState::Alive(
                    Player { position: p.position, size: (p.size + FOOD_GROWTH) as u16 },
                ),
            ] && r.1 == Seq::<Food>::empty())
            &&& (!reaches(p.size, p.position, f.position) ==> r.0 == ps && r.1 == fs)
        }),
{
    let ps = seq![PlayerState::Alive(p)];
    let fs = seq![f];
    assert(alive_indices_upto(ps, 0) =~= Seq::<usize>::empty());
    assert(alive_indices_upto(ps, 1) =~= seq![0usize]);
    let alive = alive_indices(ps);
    assert(alive =~= seq![0usize]);
    assert(run_pairs(ps, alive, 0, 1) == ps);
    assert(fs[0] == f);
    assert(fs.drop_first() =~= Seq::<Food>::empty());
    if reaches(p.size, p.position, f.position) {
        assert(eat_foods(p.position, p.size, fs) == eat_foods(
            p.position,
            (p.size + FOOD_GROWTH) as u16,
            fs.drop_first(),
        ));
        let r0 = feed_slot(ps, fs, 0);
        assert(r0.0 =~= seq![
            PlayerState::Alive(
                Player { position: p.position, size: (p.size + FOOD_GROWTH) as u16 },
            ),
        ]);
        assert(run_rounds(r0.0, r0.1, alive, 1) == (r0.0, r0.1));
    } else {
        assert(eat_foods(p.position, p.size, fs.drop_first()) == (
            p.size,
            Seq::<Food>::empty(),
        ));
        assert(seq![f] + Seq::<Food>::empty() =~= fs);
        assert(eat_foods(p.position, p.size, fs) == (p.size, fs));
        let r0 = feed_slot(ps, fs, 0);
        assert(ps.update(0, ps[0]) =~= ps);
        assert(r0 == (ps, fs));
        assert(run_rounds(r0.0, r0.1, alive, 1) == (r0.0, r0.1));
    }
}

/// An element-for-element copy of a player list.
fn copy_players(v: &Vec<PlayerState>) -> (r: Vec<PlayerState>)
    ensures
        r@ == v@,
{
    let mut r: Vec<PlayerState> = Vec::new();
    let mut n: usize = 0;
    while n < v.len()
        invariant
            n <= v@.len(),
            r@ == v@.take(n as int),
        decreases v@.len() - n,
    {
        r.push(v[n]);
        proof {
            assert(r@ =~= v@.take(n + 1));
        }
        n = n + 1;
    }
    proof {
        assert(v@.take(v@.len() as int) =~= v@);
    }
    r
}

/// An element-for-element copy of a food list.
fn copy_foods(v: &Vec<Food>) -> (r: Vec<Food>)
    ensures
        r@ == v@,
{
    let mut r: Vec<Food> = Vec::new();
    let mut n: usize = 0;
    while n < v.len()
        invariant
            n <= v@.len(),
            r@ == v@.take(n as int),
        decreases v@.len() - n,
    {
        r.push(v[n]);
        proof {
            assert(r@ =~= v@.take(n + 1));
        }
        n = n + 1;
    }
    proof {
        assert(v@.take(v@.len() as int) =~= v@);
    }
    r
}

} // verus!
