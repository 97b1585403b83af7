//! The game session and the transition engine: compress, merge, terminal
//! detection, tile spawning and the win/loss counters.

use crate::model::{
    cell_lane, cell_slot, compress_grid, empty_grid, grid_bounded, grid_tiles_ok, has_cell,
    lane_bounded, lane_cell, lane_of, lemma_grid_pass_bounded, lemma_lane_geometry,
    lemma_moved_grid_bounded, lemma_moved_grid_tiles, lemma_nonzeros_len, lemma_pow2_gap,
    lemma_pow2_values, merge_grid, merge_lane, moved_grid, nonzeros, slide_lane, spawned_from,
    Direction, Pass,
};
use vstd::prelude::*;

verus! {

/// The abstract state of a session: the 16 cells of the grid in row-major
/// order, and the two terminal counters.
pub struct AppView {
    pub grid: Seq<u32>,
    pub wins: nat,
    pub losses: nat,
}

/// A game session: the current grid and how often the player has won or
/// lost since the process started.
pub struct App {
    grid: Vec<u32>,
    win_count: u32,
    loss_count: u32,
}

impl View for App {
    type V = AppView;

    closed spec fn view(&self) -> AppView {
        AppView {
            grid: self.grid@,
            wins: self.win_count as nat,
            losses: self.loss_count as nat,
        }
    }
}

/// How one move resolves, from the state before to the state after. The
/// moved grid is the board after compress, merge, compress. A full moved
/// board is a loss, before the win check: the grid resets and the loss
/// counter moves up. Otherwise a 2048 tile is a win: the grid resets and the
/// win counter moves up. Otherwise a changed board gets exactly one fresh
/// tile, and an unchanged board stays as it is.
pub open spec fn move_resolves(pre: AppView, post: AppView, d: Direction) -> bool {
    let m = moved_grid(pre.grid, d);
    if !has_cell(m, 0) {
        post.grid == empty_grid() && post.losses == pre.losses + 1 && post.wins == pre.wins
    } else if has_cell(m, 2048) {
        post.grid == empty_grid() && post.wins == pre.wins + 1 && post.losses == pre.losses
    } else if m != pre.grid {
        spawned_from(m, post.grid) && post.wins == pre.wins && post.losses == pre.losses
    } else {
        post.grid == pre.grid && post.wins == pre.wins && post.losses == pre.losses
    }
}

impl App {

    /// The structural invariant: the grid always holds exactly 16 cells.
    pub open spec fn wf(self) -> bool {
        self@.grid.len() == 16
    }

    /// A session over the given starting cells, with both counters at zero.
    pub fn new(cells: Vec<u32>) -> (r: App)
        requires
            cells@.len() == 16,
        ensures
            r.wf(),
            r@.grid == cells@,
            r@.wins == 0,
            r@.losses == 0,
    {
        App { grid: cells, win_count: 0, loss_count: 0 }
    }

    /// The grid, for rendering: 16 cells in row-major order.
    pub fn grid(&self) -> (r: &Vec<u32>)
        ensures
            r@ == self@.grid,
    {
        &self.grid
    }

    /// How often the player has reached 2048.
    pub fn win_count(&self) -> (r: u32)
        ensures
            r as nat == self@.wins,
    {
        self.win_count
    }

    /// How often the board has filled up.
    pub fn loss_count(&self) -> (r: u32)
        ensures
            r as nat == self@.losses,
    {
        self.loss_count
    }

    /// True exactly when some cell holds `value`; the session asks for 0
    /// (a free cell remains) and for 2048 (the winning tile is present).
    pub fn has_tile_value(&self, value: u32) -> (r: bool)
        requires
            self.wf(),
        ensures
            r == has_cell(self@.grid, value),
    {
        let mut k: usize = 0;
        while k < 16
            invariant
                k <= 16,
                self.wf(),
                forall|t: int| 0 <= t < k ==> self@.grid[t] != value,
            decreases 16 - k,
        {
            if self.grid[k] == value {
                return true;
            }
            k = k + 1;
        }
        false
    }

    /// Resolves one move: compress, merge, compress for the direction, then
    /// the terminal checks in their fixed order, as `move_resolves` states.
    pub fn move_tiles(&mut self, direction: Direction)
        requires
            old(self).wf(),
            grid_bounded(old(self)@.grid, 0x7FFF_FFFF),
            old(self)@.wins < u32::MAX,
            old(self)@.losses < u32::MAX,
        ensures
            final(self).wf(),
            move_resolves(old(self)@, final(self)@, direction),
            grid_tiles_ok(old(self)@.grid) ==> grid_tiles_ok(final(self)@.grid),
            grid_tiles_ok(old(self)@.grid) && grid_bounded(old(self)@.grid, 1024) ==> grid_bounded(
                final(self)@.grid,
                1024,
            ),
    {
        let ghost g0 = self.grid@;
        let snapshot = self.clone_grid();
        self.compress(direction);
        proof {
            lemma_grid_pass_bounded(g0, direction, Pass::Slide, 0x7FFF_FFFF);
        }
        self.merge(direction);
        self.compress(direction);
        let ghost m = moved_grid(g0, direction);
        proof {
            lemma_pow2_values();
            if grid_tiles_ok(g0) {
                lemma_moved_grid_tiles(g0, direction);
                if grid_bounded(g0, 1024) {
                    lemma_moved_grid_bounded(g0, direction, 1024);
                    if has_cell(m, 0) && !has_cell(m, 2048) {
                        assert forall|k: int| 0 <= k < 16 implies #[trigger] m[k] <= 1024 by {
                            if m[k] != 0 {
                                assert(m[k] != 2048);
                                lemma_pow2_gap(m[k] as nat, 1024);
                            }
                        }
                    }
                }
            }
        }
        if !self.has_tile_value(0) {
            self.lose_game();
        } else if self.has_tile_value(2048) {
            self.win_game();
        } else if !vec_eq(&self.grid, &snapshot) {
            self.spawn_tile();
        }
    }

    /// Slides every lane of the grid toward the edge `direction` points at:
    /// the non-empty cells keep their order, the freed cells empty out. No
    /// merging happens in this pass.
    pub fn compress(&mut self, direction: Direction)
        requires
            old(self).wf(),
        ensures
            final(self).wf(),
            final(self)@.grid == compress_grid(old(self)@.grid, direction),
            final(self)@.wins == old(self)@.wins,
            final(self)@.losses == old(self)@.losses,
    {
        let ghost g0 = self.grid@;
        let ghost w0 = self@.wins;
        let ghost l0 = self@.losses;
        proof {
            lemma_lane_geometry(direction);
        }
        let mut i: usize = 0;
        while i < 4
            invariant
                i <= 4,
                self.wf(),
                self@.wins == w0,
                self@.losses == l0,
                g0.len() == 16,
                forall|k: int|
                    0 <= k < 16 ==> self@.grid[k] == (if cell_lane(direction, k) < i as int {
                        compress_grid(g0, direction)[k]
                    } else {
                        g0[k]
                    }),
            decreases 4 - i,
        {
            proof {
                lemma_lane_geometry(direction);
            }
            let lane = self.read_lane(direction, i);
            proof {
                assert(lane@ =~= lane_of(g0, direction, i as int));
            }
            let slid = slide4(&lane);
            self.write_lane(direction, i, &slid);
            i = i + 1;
        }
        proof {
            lemma_lane_geometry(direction);
            assert(self@.grid =~= compress_grid(g0, direction));
        }
    }

    /// Merges every lane of the grid for the given direction: scanning each
    /// lane from the pushed edge inward, each adjacent equal non-empty pair
    /// collapses into a doubled cell nearer the edge and an empty partner.
    /// Each cell takes part in at most one merge.
    pub fn merge(&mut self, direction: Direction)
        requires
            old(self).wf(),
            grid_bounded(old(self)@.grid, 0x7FFF_FFFF),
        ensures
            final(self).wf(),
            final(self)@.grid == merge_grid(old(self)@.grid, direction),
            final(self)@.wins == old(self)@.wins,
            final(self)@.losses == old(self)@.losses,
    {
        let ghost g0 = self.grid@;
        let ghost w0 = self@.wins;
        let ghost l0 = self@.losses;
        proof {
            lemma_lane_geometry(direction);
        }
        let mut i: usize = 0;
        while i < 4
            invariant
                i <= 4,
                self.wf(),
                self@.wins == w0,
                self@.losses == l0,
                g0.len() == 16,
                grid_bounded(g0, 0x7FFF_FFFF),
                forall|k: int|
                    0 <= k < 16 ==> self@.grid[k] == (if cell_lane(direction, k) < i as int {
                        merge_grid(g0, direction)[k]
                    } else {
                        g0[k]
                    }),
            decreases 4 - i,
        {
            proof {
                lemma_lane_geometry(direction);
            }
            let mut lane = self.read_lane(direction, i);
            proof {
                assert(lane@ =~= lane_of(g0, direction, i as int));
            }
            merge4(&mut lane);
            self.write_lane(direction, i, &lane);
            i = i + 1;
        }
        proof {
            lemma_lane_geometry(direction);
            assert(self@.grid =~= merge_grid(g0, direction));
        }
    }

    /// Lane `i` of the grid for a direction, slot 0 at the pushed edge.
    fn read_lane(&self, d: Direction, i: usize) -> (r: Vec<u32>)
        requires
            self.wf(),
            i < 4,
        ensures
            r@ == lane_of(self@.grid, d, i as int),
    {
        proof {
            lemma_lane_geometry(d);
        }
        let mut r: Vec<u32> = Vec::new();
        r.push(self.grid[lane_index(d, i, 0)]);
        r.push(self.grid[lane_index(d, i, 1)]);
        r.push(self.grid[lane_index(d, i, 2)]);
        r.push(self.grid[lane_index(d, i, 3)]);
        proof {
            assert(r@ =~= lane_of(self@.grid, d, i as int));
        }
        r
    }

    /// Writes the four cells of `lane` back onto lane `i` of the grid and
    /// leaves every other cell as it was.
    fn write_lane(&mut self, d: Direction, i: usize, lane: &Vec<u32>)
        requires
            old(self).wf(),
            i < 4,
            lane@.len() == 4,
        ensures
            final(self).wf(),
            final(self)@.wins == old(self)@.wins,
            final(self)@.losses == old(self)@.losses,
            forall|k: int|
                0 <= k < 16 ==> final(self)@.grid[k] == (if cell_lane(d, k) == i as int {
                    lane@[cell_slot(d, k)]
                } else {
                    old(self)@.grid[k]
                }),
    {
        proof {
            lemma_lane_geometry(d);
        }
        let k0 = lane_index(d, i, 0);
        self.grid.set(k0, lane[0]);
        let k1 = lane_index(d, i, 1);
        self.grid.set(k1, lane[1]);
        let k2 = lane_index(d, i, 2);
        self.grid.set(k2, lane[2]);
        let k3 = lane_index(d, i, 3);
        self.grid.set(k3, lane[3]);
        proof {
            assert forall|k: int| 0 <= k < 16 implies self@.grid[k] == (if cell_lane(d, k)
                == i as int {
                lane@[cell_slot(d, k)]
            } else {
                old(self)@.grid[k]
            }) by {
                if cell_lane(d, k) == i as int {
                    assert(lane_cell(d, i as int, cell_slot(d, k)) == k);
                }
            }
        }
    }

    /// Places one fresh tile on a random empty cell: a 4 with probability
    /// one in ten, otherwise a 2. On a board without an empty cell this is
    /// a safe no-op.
    pub fn spawn_tile(&mut self)
        requires
            old(self).wf(),
        ensures
            final(self).wf(),
            final(self)@.wins == old(self)@.wins,
            final(self)@.losses == old(self)@.losses,
            has_cell(old(self)@.grid, 0) ==> spawned_from(old(self)@.grid, final(self)@.grid),
            !has_cell(old(self)@.grid, 0) ==> final(self)@.grid == old(self)@.grid,
            grid_tiles_ok(old(self)@.grid) ==> grid_tiles_ok(final(self)@.grid),
            grid_bounded(old(self)@.grid, 1024) ==> grid_bounded(final(self)@.grid, 1024),
    {
        let mut empties: Vec<usize> = Vec::new();
        let mut k: usize = 0;
        while k < 16
            invariant
                k <= 16,
                self.wf(),
                self@ == old(self)@,
                forall|t: int|
                    0 <= t < empties@.len() ==> #[trigger] empties@[t] < 16 && self@.grid[empties@[t] as int]
                        == 0,
                forall|c: int|
                    0 <= c < k && self@.grid[c] == 0 ==> empties@.contains(c as usize),
            decreases 16 - k,
        {
            let ghost before = empties@;
            if self.grid[k] == 0 {
                empties.push(k);
            }
            proof {
                assert forall|c: int|
                    0 <= c < k + 1 && self@.grid[c] == 0 implies empties@.contains(c as usize) by {
                    if c < k {
                        let t = choose|t: int|
                            0 <= t < before.len() && before[t] == c as usize;
                        assert(empties@[t] == c as usize);
                    } else {
                        assert(empties@[empties@.len() - 1] == c as usize);
                    }
                }
            }
            k = k + 1;
        }
        proof {
            if has_cell(self@.grid, 0) {
                let c = choose|c: int| 0 <= c < 16 && self@.grid[c] == 0;
                assert(empties@.contains(c as usize));
            }
        }
        match crate::rng::choose_index(&empties) {
            None => {
            },
            Some(pos) => {
                proof {
                    let t = choose|t: int| 0 <= t < empties@.len() && empties@[t] == pos;
                    assert(empties@[t] < 16 && self@.grid[pos as int] == 0);
                }
                let four = crate::rng::one_in_ten();
                let value: u32 = if four {
                    4
                } else {
                    2
                };
                self.grid.set(pos, value);
                proof {
                    lemma_pow2_values();
                    assert(self@.grid == old(self)@.grid.update(pos as int, value));
                }
            },
        }
    }

    /// Empties the grid; the counters keep their values.
    pub fn reset_grid(&mut self)
        ensures
            final(self).wf(),
            final(self)@.grid == empty_grid(),
            final(self)@.wins == old(self)@.wins,
            final(self)@.losses == old(self)@.losses,
    {
        let cells: Vec<u32> = vec![0u32, 0, 0, 0, 0, 0, 0, 0, 0, 0, 0, 0, 0, 0, 0, 0];
        self.grid = cells;
        proof {
            assert(self@.grid =~= empty_grid());
        }
    }

    /// A loss: the board filled up. The grid resets and the loss counter
    /// moves up by one.
    fn lose_game(&mut self)
        requires
            old(self)@.losses < u32::MAX,
        ensures
            final(self).wf(),
            final(self)@.grid == empty_grid(),
            final(self)@.losses == old(self)@.losses + 1,
            final(self)@.wins == old(self)@.wins,
    {
        self.reset_grid();
        self.loss_count = self.loss_count + 1;
    }

    /// A win: a 2048 tile appeared. The grid resets and the win counter
    /// moves up by one.
    fn win_game(&mut self)
        requires
            old(self)@.wins < u32::MAX,
        ensures
            final(self).wf(),
            final(self)@.grid == empty_grid(),
            final(self)@.wins == old(self)@.wins + 1,
            final(self)@.losses == old(self)@.losses,
    {
        self.reset_grid();
        self.win_count = self.win_count + 1;
    }

    /// A copy of the grid's cells, for the before/after comparison.
    fn clone_grid(&self) -> (r: Vec<u32>)
        requires
            self.wf(),
        ensures
            r@ == self@.grid,
    {
        let mut r: Vec<u32> = Vec::new();
        let mut k: usize = 0;
        while k < 16
            invariant
                k <= 16,
                self.wf(),
                r@ == self@.grid.subrange(0, k as int),
            decreases 16 - k,
        {
            r.push(self.grid[k]);
            proof {
                assert(r@ =~= self@.grid.subrange(0, k + 1));
            }
            k = k + 1;
        }
        proof {
            assert(r@ =~= self@.grid);
        }
        r
    }
}

/// True exactly when the two vectors hold the same cells.
fn vec_eq(a: &Vec<u32>, b: &Vec<u32>) -> (r: bool)
    requires
        a@.len() == b@.len(),
    ensures
        r == (a@ == b@),
{
    let mut k: usize = 0;
    while k < a.len()
        invariant
            k <= a@.len(),
            a@.len() == b@.len(),
            forall|t: int| 0 <= t < k ==> a@[t] == b@[t],
        decreases a@.len() - k,
    {
        if a[k] != b[k] {
            return false;
        }
        k = k + 1;
    }
    proof {
        assert(a@ =~= b@);
    }
    true
}

/// The cell index of slot `j` of lane `i` for a direction.
fn lane_index(d: Direction, i: usize, j: usize) -> (r: usize)
    requires
        i < 4,
        j < 4,
    ensures
        r as int == lane_cell(d, i as int, j as int),
        r < 16,
{
    match d {
        Direction::Left => 4 * i + j,
        Direction::Right => 4 * i + (3 - j),
        Direction::Up => 4 * j + i,
        Direction::Down => 4 * (3 - j) + i,
    }
}

/// Slides a single lane of four cells toward slot 0.
fn slide4(lane: &Vec<u32>) -> (r: Vec<u32>)
    requires
        lane@.len() == 4,
    ensures
        r@ == slide_lane(lane@),
        r@.len() == 4,
{
    let mut r: Vec<u32> = Vec::new();
    if lane[0] != 0 {
        r.push(lane[0]);
    }
    if lane[1] != 0 {
        r.push(lane[1]);
    }
    if lane[2] != 0 {
        r.push(lane[2]);
    }
    if lane[3] != 0 {
        r.push(lane[3]);
    }
    proof {
        reveal_with_fuel(nonzeros, 5);
        lemma_nonzeros_len(lane@);
        assert(r@ =~= nonzeros(lane@));
    }
    let mut j: usize = r.len();
    while j < 4
        invariant
            r@.len() == j,
            nonzeros(lane@).len() <= j <= 4,
            lane@.len() == 4,
            r@ == nonzeros(lane@) + Seq::new((j - nonzeros(lane@).len()) as nat, |t: int| 0u32),
        decreases 4 - j,
    {
        r.push(0);
        j = j + 1;
        proof {
            assert(r@ =~= nonzeros(lane@) + Seq::new(
                (j - nonzeros(lane@).len()) as nat,
                |t: int| 0u32,
            ));
        }
    }
    proof {
        assert(r@ =~= slide_lane(lane@));
    }
    r
}

/// Merges a single lane of four cells, scanning from slot 0: an adjacent
/// equal non-empty pair becomes a doubled cell and an empty one, and a cell
/// emptied by one step never satisfies the next step's guard.
fn merge4(lane: &mut Vec<u32>)
    requires
        old(lane)@.len() == 4,
        lane_bounded(old(lane)@, 0x7FFF_FFFF),
    ensures
        final(lane)@ == merge_lane(old(lane)@),
{
    if lane[0] != 0 && lane[0] == lane[1] {
        let v = lane[0];
        lane.set(0, v + v);
        lane.set(1, 0);
    }
    if lane[1] != 0 && lane[1] == lane[2] {
        let v = lane[1];
        lane.set(1, v + v);
        lane.set(2, 0);
    }
    if lane[2] != 0 && lane[2] == lane[3] {
        let v = lane[2];
        lane.set(2, v + v);
        lane.set(3, 0);
    }
    proof {
        assert(lane@ =~= merge_lane(old(lane)@));
    }
}

impl Default for App {
    /// A session over an all-empty grid with both counters at zero.
    fn default() -> (r: App)
        ensures
            r.wf(),
            r@.grid == empty_grid(),
            r@.wins == 0,
            r@.losses == 0,
    {
        let cells: Vec<u32> = vec![0u32, 0, 0, 0, 0, 0, 0, 0, 0, 0, 0, 0, 0, 0, 0, 0];
        proof {
            assert(cells@ =~= empty_grid());
        }
        App { grid: cells, win_count: 0, loss_count: 0 }
    }
}

} // verus!
