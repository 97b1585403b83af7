//! The general laws of the transition engine, proved once over all grids:
//! a settled board does not move, a move conserves the sum of the tiles,
//! no cell merges twice within one move, and the four directions mirror
//! one another.

use crate::engine::{move_resolves, AppView};
use crate::model::{
    cell_lane, cell_slot, compress_grid, grid_bounded, grid_pass, grid_sum, has_cell,
    lane_bounded, lane_move, lane_of, lane_settled, lane_sum, lemma_grid_pass_bounded,
    lemma_lane_geometry, lemma_lane_of_grid_pass, lemma_nonzeros_len, merge_at, merge_grid,
    merge_lane, mirror_cols, mirror_rows, moved_grid, nonzeros, slide_lane, spawned_from,
    Direction, Pass,
};
use vstd::prelude::*;

verus! {

/// Whether the merge scan over a lane of four cells fires at position `x`,
/// that is, doubles the cell at `x` and empties the one at `x + 1`.
pub open spec fn merge_fired(s: Seq<u32>, x: int) -> bool {
    let s0 = merge_at(s, 0);
    let s1 = merge_at(s0, 1);
    if x == 0 {
        s.len() >= 2 && s[0] != 0 && s[0] == s[1]
    } else if x == 1 {
        s0.len() >= 3 && s0[1] != 0 && s0[1] == s0[2]
    } else {
        x == 2 && s1.len() >= 4 && s1[2] != 0 && s1[2] == s1[3]
    }
}

/// No double merge: the merge scan never fires at two adjacent positions,
/// since firing at `x` empties the cell at `x + 1`, which the guard at
/// `x + 1` then rejects. A cell produced by a merge is therefore never
/// merged again within the same move.
pub proof fn lemma_no_double_merge(s: Seq<u32>)
    requires
        s.len() == 4,
    ensures
        !(merge_fired(s, 0) && merge_fired(s, 1)),
        !(merge_fired(s, 1) && merge_fired(s, 2)),
{
}

/// What each cell of a merged lane holds: a position where the scan fired
/// carries the double of its old value and empties its partner, and a
/// position no firing touched keeps its old value. Together with
/// `lemma_no_double_merge` this pins the merge pass down completely.
pub proof fn lemma_merge_lane_cells(s: Seq<u32>)
    requires
        s.len() == 4,
    ensures
        merge_fired(s, 0) ==> merge_lane(s)[0] == (s[0] + s[0]) as u32 && merge_lane(s)[1] == 0,
        merge_fired(s, 1) ==> merge_lane(s)[1] == (s[1] + s[1]) as u32 && merge_lane(s)[2] == 0,
        merge_fired(s, 2) ==> merge_lane(s)[2] == (s[2] + s[2]) as u32 && merge_lane(s)[3] == 0,
        !merge_fired(s, 0) ==> merge_lane(s)[0] == s[0],
        !merge_fired(s, 0) && !merge_fired(s, 1) ==> merge_lane(s)[1] == s[1],
        !merge_fired(s, 1) && !merge_fired(s, 2) ==> merge_lane(s)[2] == s[2],
        !merge_fired(s, 2) ==> merge_lane(s)[3] == s[3],
{
}

/// No double merge, concretely: a lane of four equal tiles moves into two
/// doubled tiles, not one quadrupled one.
pub proof fn lemma_four_equal_tiles(v: u32)
    requires
        0 < v <= 0x7FFF_FFFF,
    ensures
        lane_move(seq![v, v, v, v]) == seq![(v + v) as u32, (v + v) as u32, 0u32, 0u32],
{
    reveal_with_fuel(nonzeros, 5);
    let s = seq![v, v, v, v];
    assert(slide_lane(s) =~= s);
    let w = merge_lane(s);
    assert(w =~= seq![(v + v) as u32, 0u32, (v + v) as u32, 0u32]);
    assert(slide_lane(w) =~= seq![(v + v) as u32, (v + v) as u32, 0u32, 0u32]);
}

/// A settled lane is a fixed point of both passes: sliding moves nothing
/// because the empty cells already sit at the tail, and merging fires
/// nowhere because no adjacent cells hold equal non-empty values.
pub proof fn lemma_settled_lane_fixed(s: Seq<u32>)
    requires
        s.len() == 4,
        lane_settled(s),
    ensures
        slide_lane(s) == s,
        merge_lane(s) == s,
        lane_move(s) == s,
{
    reveal_with_fuel(nonzeros, 5);
    if s[0] == 0 {
        assert(s[1] == 0);
        assert(s[2] == 0);
        assert(s[3] == 0);
    } else if s[1] == 0 {
        assert(s[2] == 0);
        assert(s[3] == 0);
    } else if s[2] == 0 {
        assert(s[3] == 0);
    }
    assert(slide_lane(s) =~= s);
    assert(merge_lane(s) =~= s);
}

/// Idempotent no-op: a move in a direction whose every lane is already
/// settled leaves the grid exactly as it was, so the caller sees no change
/// and spawns nothing.
pub proof fn lemma_settled_move_noop(g: Seq<u32>, d: Direction)
    requires
        g.len() == 16,
        forall|i: int| 0 <= i < 4 ==> lane_settled(#[trigger] lane_of(g, d, i)),
    ensures
        moved_grid(g, d) == g,
{
    lemma_lane_geometry(d);
    assert forall|k: int| 0 <= k < 16 implies #[trigger] compress_grid(g, d)[k] == g[k] by {
        lemma_settled_lane_fixed(lane_of(g, d, cell_lane(d, k)));
        assert(grid_pass(g, d, Pass::Slide)[k] == g[k]);
    }
    assert forall|k: int| 0 <= k < 16 implies #[trigger] merge_grid(g, d)[k] == g[k] by {
        lemma_settled_lane_fixed(lane_of(g, d, cell_lane(d, k)));
        assert(grid_pass(g, d, Pass::Merge)[k] == g[k]);
    }
    assert(compress_grid(g, d) =~= g);
    assert(merge_grid(g, d) =~= g);
}

/// The session-level face of the no-op law: a move in a direction whose
/// lanes are all settled, on a board that still has a free cell and no
/// winning tile, leaves the whole session untouched: same grid, same
/// counters, and no tile spawns.
pub proof fn lemma_settled_move_keeps_session(pre: AppView, post: AppView, d: Direction)
    requires
        pre.grid.len() == 16,
        forall|i: int| 0 <= i < 4 ==> lane_settled(#[trigger] lane_of(pre.grid, d, i)),
        has_cell(pre.grid, 0),
        !has_cell(pre.grid, 2048),
        move_resolves(pre, post, d),
    ensures
        post.grid == pre.grid,
        post.wins == pre.wins,
        post.losses == pre.losses,
{
    lemma_settled_move_noop(pre.grid, d);
}

/// Sliding a lane conserves its sum: only zeros change places.
pub proof fn lemma_slide_sum(s: Seq<u32>)
    requires
        s.len() == 4,
    ensures
        lane_sum(slide_lane(s)) == lane_sum(s),
{
    reveal_with_fuel(nonzeros, 5);
    lemma_nonzeros_len(s);
    assert(lane_sum(slide_lane(s)) == lane_sum(s));
}

/// Merging a lane conserves its sum: one cell doubles exactly as its
/// partner empties.
pub proof fn lemma_merge_sum(s: Seq<u32>)
    requires
        s.len() == 4,
        lane_bounded(s, 0x7FFF_FFFF),
    ensures
        lane_sum(merge_lane(s)) == lane_sum(s),
{
}

/// The sum of the whole grid is the sum of its four lanes, whichever
/// direction the lanes are read in.
pub proof fn lemma_grid_sum_lanes(g: Seq<u32>, d: Direction)
    requires
        g.len() == 16,
    ensures
        grid_sum(g) == lane_sum(lane_of(g, d, 0)) + lane_sum(lane_of(g, d, 1)) + lane_sum(
            lane_of(g, d, 2),
        ) + lane_sum(lane_of(g, d, 3)),
{
}

/// Value conservation: the three passes of a move never change the sum of
/// all cells; merging trades two equal tiles for one of twice the value.
pub proof fn lemma_move_conserves_sum(g: Seq<u32>, d: Direction)
    requires
        g.len() == 16,
        grid_bounded(g, 0x7FFF_FFFF),
    ensures
        grid_sum(moved_grid(g, d)) == grid_sum(g),
{
    let c1 = compress_grid(g, d);
    let m1 = merge_grid(c1, d);
    let c2 = compress_grid(m1, d);
    lemma_grid_pass_bounded(g, d, Pass::Slide, 0x7FFF_FFFF);
    lemma_lane_of_grid_pass(g, d, Pass::Slide);
    lemma_lane_of_grid_pass(c1, d, Pass::Merge);
    lemma_lane_of_grid_pass(m1, d, Pass::Slide);
    lemma_grid_sum_lanes(g, d);
    lemma_grid_sum_lanes(c1, d);
    lemma_grid_sum_lanes(m1, d);
    lemma_grid_sum_lanes(c2, d);
    assert forall|i: int| 0 <= i < 4 implies lane_sum(#[trigger] lane_of(c1, d, i)) == lane_sum(
        lane_of(g, d, i),
    ) && lane_sum(lane_of(m1, d, i)) == lane_sum(lane_of(c1, d, i)) && lane_sum(
        lane_of(c2, d, i),
    ) == lane_sum(lane_of(m1, d, i)) by {
        lemma_lane_geometry(d);
        lemma_slide_sum(lane_of(g, d, i));
        assert forall|j: int| 0 <= j < 4 implies #[trigger] lane_of(c1, d, i)[j]
            <= 0x7FFF_FFFF by {
            assert(0 <= crate::model::lane_cell(d, i, j) < 16);
        }
        lemma_merge_sum(lane_of(c1, d, i));
        lemma_slide_sum(lane_of(m1, d, i));
    }
}

/// Spawning raises the sum of the grid by exactly the value of the one
/// fresh tile, 2 or 4.
pub proof fn lemma_spawn_adds_sum(before: Seq<u32>, after: Seq<u32>)
    requires
        before.len() == 16,
        spawned_from(before, after),
    ensures
        grid_sum(after) == grid_sum(before) + 2 || grid_sum(after) == grid_sum(before) + 4,
{
    let k = choose|k: int|
        0 <= k < 16 && before[k] == 0 && (after == before.update(k, 2u32) || after
            == before.update(k, 4u32));
    assert(before[k] == 0);
}

/// Mirroring the rows swaps the roles of `Left` and `Right` for a single
/// pass.
pub proof fn lemma_mirror_rows_pass(g: Seq<u32>, p: Pass)
    requires
        g.len() == 16,
    ensures
        grid_pass(mirror_rows(g), Direction::Right, p) == mirror_rows(
            grid_pass(g, Direction::Left, p),
        ),
        grid_pass(mirror_rows(g), Direction::Left, p) == mirror_rows(
            grid_pass(g, Direction::Right, p),
        ),
{
    assert forall|i: int| 0 <= i < 4 implies #[trigger] lane_of(mirror_rows(g), Direction::Right, i)
        == lane_of(g, Direction::Left, i) by {
        assert(lane_of(mirror_rows(g), Direction::Right, i) =~= lane_of(g, Direction::Left, i));
    }
    assert forall|i: int| 0 <= i < 4 implies #[trigger] lane_of(mirror_rows(g), Direction::Left, i)
        == lane_of(g, Direction::Right, i) by {
        assert(lane_of(mirror_rows(g), Direction::Left, i) =~= lane_of(g, Direction::Right, i));
    }
    assert forall|k: int|
        0 <= k < 16 implies #[trigger] grid_pass(mirror_rows(g), Direction::Right, p)[k]
        == mirror_rows(grid_pass(g, Direction::Left, p))[k] by {
        let k2 = 4 * (k / 4) + 3 - k % 4;
        assert(0 <= k2 < 16);
        let i = cell_lane(Direction::Right, k);
        let j = cell_slot(Direction::Right, k);
        assert(cell_lane(Direction::Left, k2) == i);
        assert(cell_slot(Direction::Left, k2) == j);
        assert(lane_of(mirror_rows(g), Direction::Right, i) == lane_of(g, Direction::Left, i));
    }
    assert forall|k: int|
        0 <= k < 16 implies #[trigger] grid_pass(mirror_rows(g), Direction::Left, p)[k]
        == mirror_rows(grid_pass(g, Direction::Right, p))[k] by {
        let k2 = 4 * (k / 4) + 3 - k % 4;
        assert(0 <= k2 < 16);
        let i = cell_lane(Direction::Left, k);
        let j = cell_slot(Direction::Left, k);
        assert(cell_lane(Direction::Right, k2) == i);
        assert(cell_slot(Direction::Right, k2) == j);
        assert(lane_of(mirror_rows(g), Direction::Left, i) == lane_of(g, Direction::Right, i));
    }
    assert(grid_pass(mirror_rows(g), Direction::Right, p) =~= mirror_rows(
        grid_pass(g, Direction::Left, p),
    ));
    assert(grid_pass(mirror_rows(g), Direction::Left, p) =~= mirror_rows(
        grid_pass(g, Direction::Right, p),
    ));
}

/// Mirroring the columns swaps the roles of `Up` and `Down` for a single
/// pass.
pub proof fn lemma_mirror_cols_pass(g: Seq<u32>, p: Pass)
    requires
        g.len() == 16,
    ensures
        grid_pass(mirror_cols(g), Direction::Down, p) == mirror_cols(
            grid_pass(g, Direction::Up, p),
        ),
        grid_pass(mirror_cols(g), Direction::Up, p) == mirror_cols(
            grid_pass(g, Direction::Down, p),
        ),
{
    assert forall|i: int| 0 <= i < 4 implies #[trigger] lane_of(mirror_cols(g), Direction::Down, i)
        == lane_of(g, Direction::Up, i) by {
        assert(lane_of(mirror_cols(g), Direction::Down, i) =~= lane_of(g, Direction::Up, i));
    }
    assert forall|i: int| 0 <= i < 4 implies #[trigger] lane_of(mirror_cols(g), Direction::Up, i)
        == lane_of(g, Direction::Down, i) by {
        assert(lane_of(mirror_cols(g), Direction::Up, i) =~= lane_of(g, Direction::Down, i));
    }
    assert forall|k: int|
        0 <= k < 16 implies #[trigger] grid_pass(mirror_cols(g), Direction::Down, p)[k]
        == mirror_cols(grid_pass(g, Direction::Up, p))[k] by {
        let k2 = 4 * (3 - k / 4) + k % 4;
        assert(0 <= k2 < 16);
        let i = cell_lane(Direction::Down, k);
        let j = cell_slot(Direction::Down, k);
        assert(cell_lane(Direction::Up, k2) == i);
        assert(cell_slot(Direction::Up, k2) == j);
        assert(lane_of(mirror_cols(g), Direction::Down, i) == lane_of(g, Direction::Up, i));
    }
    assert forall|k: int|
        0 <= k < 16 implies #[trigger] grid_pass(mirror_cols(g), Direction::Up, p)[k]
        == mirror_cols(grid_pass(g, Direction::Down, p))[k] by {
        let k2 = 4 * (3 - k / 4) + k % 4;
        assert(0 <= k2 < 16);
        let i = cell_lane(Direction::Up, k);
        let j = cell_slot(Direction::Up, k);
        assert(cell_lane(Direction::Down, k2) == i);
        assert(cell_slot(Direction::Down, k2) == j);
        assert(lane_of(mirror_cols(g), Direction::Up, i) == lane_of(g, Direction::Down, i));
    }
    assert(grid_pass(mirror_cols(g), Direction::Down, p) =~= mirror_cols(
        grid_pass(g, Direction::Up, p),
    ));
    assert(grid_pass(mirror_cols(g), Direction::Up, p) =~= mirror_cols(
        grid_pass(g, Direction::Down, p),
    ));
}

/// Directional symmetry for rows: moving the row-mirrored grid `Right`
/// gives the row mirror of moving the grid `Left`, and the other way
/// around.
pub proof fn lemma_mirror_rows_move(g: Seq<u32>)
    requires
        g.len() == 16,
    ensures
        moved_grid(mirror_rows(g), Direction::Right) == mirror_rows(
            moved_grid(g, Direction::Left),
        ),
        moved_grid(mirror_rows(g), Direction::Left) == mirror_rows(
            moved_grid(g, Direction::Right),
        ),
{
    lemma_mirror_rows_pass(g, Pass::Slide);
    lemma_mirror_rows_pass(compress_grid(g, Direction::Left), Pass::Merge);
    lemma_mirror_rows_pass(compress_grid(g, Direction::Right), Pass::Merge);
    lemma_mirror_rows_pass(
        merge_grid(compress_grid(g, Direction::Left), Direction::Left),
        Pass::Slide,
    );
    lemma_mirror_rows_pass(
        merge_grid(compress_grid(g, Direction::Right), Direction::Right),
        Pass::Slide,
    );
}

/// Directional symmetry for columns: moving the column-mirrored grid `Down`
/// gives the column mirror of moving the grid `Up`, and the other way
/// around.
pub proof fn lemma_mirror_cols_move(g: Seq<u32>)
    requires
        g.len() == 16,
    ensures
        moved_grid(mirror_cols(g), Direction::Down) == mirror_cols(moved_grid(g, Direction::Up)),
        moved_grid(mirror_cols(g), Direction::Up) == mirror_cols(moved_grid(g, Direction::Down)),
{
    lemma_mirror_cols_pass(g, Pass::Slide);
    lemma_mirror_cols_pass(compress_grid(g, Direction::Up), Pass::Merge);
    lemma_mirror_cols_pass(compress_grid(g, Direction::Down), Pass::Merge);
    lemma_mirror_cols_pass(merge_grid(compress_grid(g, Direction::Up), Direction::Up), Pass::Slide);
    lemma_mirror_cols_pass(
        merge_grid(compress_grid(g, Direction::Down), Direction::Down),
        Pass::Slide,
    );
}

} // verus!
