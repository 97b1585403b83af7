//! The mathematical model of the board: a grid is a sequence of 16 cells in
//! row-major order, and a move works lane by lane, where a lane is a row or a
//! column read from the edge the tiles are pushed toward.

use vstd::prelude::*;

verus! {

/// The four directions a move can push the tiles toward.
#[derive(Clone, Copy)]
pub enum Direction {
    Left,
    Right,
    Up,
    Down,
}

/// The two passes a move is built from: sliding tiles toward the edge and
/// merging adjacent equal pairs.
#[derive(Clone, Copy)]
pub enum Pass {
    Slide,
    Merge,
}

/// `v` is a power of two.
pub open spec fn is_pow2(v: nat) -> bool
    decreases v,
{
    if v <= 1 {
        v == 1
    } else {
        v % 2 == 0 && is_pow2(v / 2)
    }
}

/// A cell is either empty or holds a power of two worth at least 2.
pub open spec fn tile_ok(v: u32) -> bool {
    v == 0 || (v >= 2 && is_pow2(v as nat))
}

/// Every cell of the grid is a valid tile.
pub open spec fn grid_tiles_ok(g: Seq<u32>) -> bool {
    forall|k: int| 0 <= k < 16 ==> tile_ok(#[trigger] g[k])
}

/// Every cell of the grid is at most `m`.
pub open spec fn grid_bounded(g: Seq<u32>, m: int) -> bool {
    forall|k: int| 0 <= k < 16 ==> #[trigger] g[k] <= m
}

/// Every cell of a lane is at most `m`.
pub open spec fn lane_bounded(s: Seq<u32>, m: int) -> bool {
    forall|j: int| 0 <= j < s.len() ==> #[trigger] s[j] <= m
}

/// Every cell of a lane is a valid tile.
pub open spec fn lane_tiles_ok(s: Seq<u32>) -> bool {
    forall|j: int| 0 <= j < s.len() ==> tile_ok(#[trigger] s[j])
}

/// The grid with every cell empty.
pub open spec fn empty_grid() -> Seq<u32> {
    Seq::new(16, |k: int| 0u32)
}

/// Some cell of the grid holds exactly `v`.
pub open spec fn has_cell(g: Seq<u32>, v: u32) -> bool {
    exists|k: int| 0 <= k < 16 && g[k] == v
}

/// The non-empty cells of a lane, in order.
pub open spec fn nonzeros(s: Seq<u32>) -> Seq<u32>
    decreases s.len(),
{
    if s.len() == 0 {
        Seq::empty()
    } else if s.first() != 0 {
        seq![s.first()] + nonzeros(s.drop_first())
    } else {
        nonzeros(s.drop_first())
    }
}

/// Sliding a lane toward its front: the non-empty cells keep their order and
/// the vacated tail fills with zeros.
pub open spec fn slide_lane(s: Seq<u32>) -> Seq<u32> {
    nonzeros(s) + Seq::new((s.len() - nonzeros(s).len()) as nat, |j: int| 0u32)
}

/// One step of the merge scan: if the cells at `x` and `x + 1` are equal and
/// non-empty, the one at `x` doubles and the one at `x + 1` empties.
pub open spec fn merge_at(s: Seq<u32>, x: int) -> Seq<u32> {
    if 0 <= x && x + 1 < s.len() && s[x] != 0 && s[x] == s[x + 1] {
        s.update(x, (s[x] + s[x]) as u32).update(x + 1, 0u32)
    } else {
        s
    }
}

/// The single merge pass over a lane of four cells, scanning from the front.
/// A cell emptied by one step cannot satisfy the next step's guard, so no
/// cell takes part in two merges.
pub open spec fn merge_lane(s: Seq<u32>) -> Seq<u32> {
    merge_at(merge_at(merge_at(s, 0), 1), 2)
}

/// One pass applied to a lane.
pub open spec fn lane_pass(s: Seq<u32>, p: Pass) -> Seq<u32> {
    match p {
        Pass::Slide => slide_lane(s),
        Pass::Merge => merge_lane(s),
    }
}

/// A whole move on a lane: slide, merge, slide again.
pub open spec fn lane_move(s: Seq<u32>) -> Seq<u32> {
    slide_lane(merge_lane(slide_lane(s)))
}

/// The cell index of slot `j` of lane `i` for a direction. Lanes for `Left`
/// and `Right` are rows, for `Up` and `Down` columns; slot 0 sits at the edge
/// the move pushes toward.
pub open spec fn lane_cell(d: Direction, i: int, j: int) -> int {
    match d {
        Direction::Left => 4 * i + j,
        Direction::Right => 4 * i + (3 - j),
        Direction::Up => 4 * j + i,
        Direction::Down => 4 * (3 - j) + i,
    }
}

/// The lane that cell `k` belongs to for a direction.
pub open spec fn cell_lane(d: Direction, k: int) -> int {
    match d {
        Direction::Left => k / 4,
        Direction::Right => k / 4,
        Direction::Up => k % 4,
        Direction::Down => k % 4,
    }
}

/// The slot that cell `k` occupies within its lane for a direction.
pub open spec fn cell_slot(d: Direction, k: int) -> int {
    match d {
        Direction::Left => k % 4,
        Direction::Right => 3 - k % 4,
        Direction::Up => k / 4,
        Direction::Down => 3 - k / 4,
    }
}

/// Lane `i` of the grid for a direction, slot 0 first.
pub open spec fn lane_of(g: Seq<u32>, d: Direction, i: int) -> Seq<u32> {
    Seq::new(4, |j: int| g[lane_cell(d, i, j)])
}

/// One pass applied to every lane of the grid.
pub open spec fn grid_pass(g: Seq<u32>, d: Direction, p: Pass) -> Seq<u32> {
    Seq::new(16, |k: int| lane_pass(lane_of(g, d, cell_lane(d, k)), p)[cell_slot(d, k)])
}

/// The slide pass on the whole grid.
pub open spec fn compress_grid(g: Seq<u32>, d: Direction) -> Seq<u32> {
    grid_pass(g, d, Pass::Slide)
}

/// The merge pass on the whole grid.
pub open spec fn merge_grid(g: Seq<u32>, d: Direction) -> Seq<u32> {
    grid_pass(g, d, Pass::Merge)
}

/// A whole move on the grid: slide, merge, slide again, every lane.
pub open spec fn moved_grid(g: Seq<u32>, d: Direction) -> Seq<u32> {
    compress_grid(merge_grid(compress_grid(g, d), d), d)
}

/// The grid differs from `before` in exactly one formerly empty cell, which
/// now holds 2 or 4.
pub open spec fn spawned_from(before: Seq<u32>, after: Seq<u32>) -> bool {
    exists|k: int|
        0 <= k < 16 && before[k] == 0 && (after == before.update(k, 2u32) || after
            == before.update(k, 4u32))
}

/// The sum of the four cells of a lane.
pub open spec fn lane_sum(s: Seq<u32>) -> int {
    s[0] + s[1] + s[2] + s[3]
}

/// The sum of all 16 cells of the grid.
pub open spec fn grid_sum(g: Seq<u32>) -> int {
    g[0] + g[1] + g[2] + g[3] + g[4] + g[5] + g[6] + g[7] + g[8] + g[9] + g[10] + g[11] + g[12]
        + g[13] + g[14] + g[15]
}

/// A lane on which a move has nothing left to do: the empty cells form a
/// suffix and no two adjacent cells hold the same non-empty value.
pub open spec fn lane_settled(s: Seq<u32>) -> bool {
    &&& forall|j: int| 0 <= j < 3 && #[trigger] s[j] == 0 ==> s[j + 1] == 0
    &&& forall|j: int| 0 <= j < 3 ==> !(#[trigger] s[j] != 0 && s[j] == s[j + 1])
}

/// Lane/slot pairs and cell indices are inverse to one another: every lane
/// runs through 16 distinct cells, and every cell lies on exactly one lane.
pub proof fn lemma_lane_geometry(d: Direction)
    ensures
        forall|i: int, j: int|
            0 <= i < 4 && 0 <= j < 4 ==> 0 <= #[trigger] lane_cell(d, i, j) < 16,
        forall|i: int, j: int|
            0 <= i < 4 && 0 <= j < 4 ==> cell_lane(d, #[trigger] lane_cell(d, i, j)) == i,
        forall|i: int, j: int|
            0 <= i < 4 && 0 <= j < 4 ==> cell_slot(d, #[trigger] lane_cell(d, i, j)) == j,
        forall|k: int| 0 <= k < 16 ==> 0 <= #[trigger] cell_lane(d, k) < 4,
        forall|k: int| 0 <= k < 16 ==> 0 <= #[trigger] cell_slot(d, k) < 4,
        forall|k: int|
            0 <= k < 16 ==> lane_cell(d, #[trigger] cell_lane(d, k), cell_slot(d, k)) == k,
{
}

/// A lane never gains cells when the zeros are dropped.
pub proof fn lemma_nonzeros_len(s: Seq<u32>)
    ensures
        nonzeros(s).len() <= s.len(),
    decreases s.len(),
{
    if s.len() > 0 {
        lemma_nonzeros_len(s.drop_first());
    }
}

/// Sliding a lane keeps its length.
pub proof fn lemma_slide_len(s: Seq<u32>)
    ensures
        slide_lane(s).len() == s.len(),
{
    lemma_nonzeros_len(s);
}

/// Either pass keeps the length of a lane.
pub proof fn lemma_lane_pass_len(s: Seq<u32>, p: Pass)
    ensures
        lane_pass(s, p).len() == s.len(),
{
    match p {
        Pass::Slide => lemma_slide_len(s),
        Pass::Merge => {},
    }
}

/// A pass on the grid transforms each lane by the corresponding lane pass.
pub proof fn lemma_lane_of_grid_pass(g: Seq<u32>, d: Direction, p: Pass)
    requires
        g.len() == 16,
    ensures
        grid_pass(g, d, p).len() == 16,
        forall|i: int|
            0 <= i < 4 ==> #[trigger] lane_of(grid_pass(g, d, p), d, i) == lane_pass(
                lane_of(g, d, i),
                p,
            ),
{
    lemma_lane_geometry(d);
    assert forall|i: int|
        0 <= i < 4 implies #[trigger] lane_of(grid_pass(g, d, p), d, i) == lane_pass(
        lane_of(g, d, i),
        p,
    ) by {
        lemma_lane_pass_len(lane_of(g, d, i), p);
        assert(lane_of(grid_pass(g, d, p), d, i) =~= lane_pass(lane_of(g, d, i), p));
    }
}

/// The tile values the engine deals in are powers of two.
pub proof fn lemma_pow2_values()
    ensures
        is_pow2(1),
        is_pow2(2),
        is_pow2(4),
        is_pow2(1024),
        is_pow2(2048),
        tile_ok(0),
        tile_ok(2),
        tile_ok(4),
{
    reveal_with_fuel(is_pow2, 13);
}

/// Powers of two leave no room between `b` and `2 * b`: a power of two
/// below `2 * b` is at most `b`.
pub proof fn lemma_pow2_gap(v: nat, b: nat)
    requires
        is_pow2(v),
        is_pow2(b),
        v < 2 * b,
    ensures
        v <= b,
    decreases v,
{
    if v > b {
        lemma_pow2_gap(v / 2, b / 2);
    }
}

/// Doubling a non-empty tile that fits twice into `u32` gives a tile again.
pub proof fn lemma_tile_double(v: u32)
    requires
        tile_ok(v),
        v != 0,
        v <= 0x7FFF_FFFF,
    ensures
        tile_ok((v + v) as u32),
{
    assert(((v + v) as u32) as nat == 2 * (v as nat));
    assert(is_pow2(2 * (v as nat)));
}

/// Dropping the zeros keeps every bound on the cells.
pub proof fn lemma_nonzeros_bounded(s: Seq<u32>, m: int)
    requires
        lane_bounded(s, m),
    ensures
        lane_bounded(nonzeros(s), m),
    decreases s.len(),
{
    if s.len() > 0 {
        assert forall|j: int| 0 <= j < s.drop_first().len() implies #[trigger] s.drop_first()[j]
            <= m by {
            assert(s[j + 1] <= m);
        }
        lemma_nonzeros_bounded(s.drop_first(), m);
    }
}

/// Dropping the zeros keeps every cell a valid tile.
pub proof fn lemma_nonzeros_tiles(s: Seq<u32>)
    requires
        lane_tiles_ok(s),
    ensures
        lane_tiles_ok(nonzeros(s)),
    decreases s.len(),
{
    if s.len() > 0 {
        assert forall|j: int| 0 <= j < s.drop_first().len() implies tile_ok(
            #[trigger] s.drop_first()[j],
        ) by {
            assert(tile_ok(s[j + 1]));
        }
        lemma_nonzeros_tiles(s.drop_first());
    }
}

/// Sliding keeps every bound on the cells, since the new cells are empty.
pub proof fn lemma_slide_bounded(s: Seq<u32>, m: int)
    requires
        lane_bounded(s, m),
        0 <= m,
    ensures
        lane_bounded(slide_lane(s), m),
{
    lemma_nonzeros_bounded(s, m);
    lemma_nonzeros_len(s);
}

/// Sliding keeps every cell a valid tile.
pub proof fn lemma_slide_tiles(s: Seq<u32>)
    requires
        lane_tiles_ok(s),
    ensures
        lane_tiles_ok(slide_lane(s)),
{
    lemma_nonzeros_tiles(s);
    lemma_nonzeros_len(s);
    lemma_pow2_values();
}

/// Merging at most doubles a cell.
pub proof fn lemma_merge_bounded(s: Seq<u32>, m: int)
    requires
        s.len() == 4,
        lane_bounded(s, m),
        0 <= m <= 0x7FFF_FFFF,
    ensures
        lane_bounded(merge_lane(s), 2 * m),
{
}

/// Merging keeps every cell a valid tile: a merged cell is the double of a
/// non-empty tile, and its partner empties out.
pub proof fn lemma_merge_tiles(s: Seq<u32>)
    requires
        s.len() == 4,
        lane_tiles_ok(s),
        lane_bounded(s, 0x7FFF_FFFF),
    ensures
        lane_tiles_ok(merge_lane(s)),
{
    lemma_pow2_values();
    let s0 = merge_at(s, 0);
    let s1 = merge_at(s0, 1);
    if s[0] != 0 && s[0] == s[1] {
        lemma_tile_double(s[0]);
    }
    if s0[1] != 0 && s0[1] == s0[2] {
        lemma_tile_double(s0[1]);
    }
    if s1[2] != 0 && s1[2] == s1[3] {
        lemma_tile_double(s1[2]);
    }
}

/// The lanes of a grid whose cells are bounded are bounded lanes of tiles.
pub proof fn lemma_lane_of_props(g: Seq<u32>, d: Direction, i: int, m: int)
    requires
        g.len() == 16,
        0 <= i < 4,
    ensures
        grid_bounded(g, m) ==> lane_bounded(lane_of(g, d, i), m),
        grid_tiles_ok(g) ==> lane_tiles_ok(lane_of(g, d, i)),
{
    lemma_lane_geometry(d);
}

/// One pass on the grid keeps a bound `m` on the cells for the slide pass,
/// and keeps `2 * m` for the merge pass.
pub proof fn lemma_grid_pass_bounded(g: Seq<u32>, d: Direction, p: Pass, m: int)
    requires
        g.len() == 16,
        grid_bounded(g, m),
        0 <= m,
        p is Merge ==> m <= 0x7FFF_FFFF,
    ensures
        grid_bounded(grid_pass(g, d, p), 2 * m),
        p is Slide ==> grid_bounded(grid_pass(g, d, p), m),
{
    lemma_lane_geometry(d);
    assert forall|k: int| 0 <= k < 16 implies #[trigger] grid_pass(g, d, p)[k] <= 2 * m && (
    p is Slide ==> grid_pass(g, d, p)[k] <= m) by {
        let i = cell_lane(d, k);
        let j = cell_slot(d, k);
        lemma_lane_of_props(g, d, i, m);
        lemma_lane_pass_len(lane_of(g, d, i), p);
        match p {
            Pass::Slide => {
                lemma_slide_bounded(lane_of(g, d, i), m);
            },
            Pass::Merge => {
                lemma_merge_bounded(lane_of(g, d, i), m);
            },
        }
    }
}

/// One pass on the grid keeps every cell a valid tile.
pub proof fn lemma_grid_pass_tiles(g: Seq<u32>, d: Direction, p: Pass)
    requires
        g.len() == 16,
        grid_tiles_ok(g),
        p is Merge ==> grid_bounded(g, 0x7FFF_FFFF),
    ensures
        grid_tiles_ok(grid_pass(g, d, p)),
{
    lemma_lane_geometry(d);
    assert forall|k: int| 0 <= k < 16 implies tile_ok(#[trigger] grid_pass(g, d, p)[k]) by {
        let i = cell_lane(d, k);
        lemma_lane_of_props(g, d, i, 0x7FFF_FFFF);
        lemma_lane_pass_len(lane_of(g, d, i), p);
        match p {
            Pass::Slide => {
                lemma_slide_tiles(lane_of(g, d, i));
            },
            Pass::Merge => {
                lemma_merge_tiles(lane_of(g, d, i));
            },
        }
    }
}

/// A whole move keeps the cells within twice their old bound.
pub proof fn lemma_moved_grid_bounded(g: Seq<u32>, d: Direction, m: int)
    requires
        g.len() == 16,
        grid_bounded(g, m),
        0 <= m <= 0x7FFF_FFFF,
    ensures
        moved_grid(g, d).len() == 16,
        grid_bounded(moved_grid(g, d), 2 * m),
{
    lemma_grid_pass_bounded(g, d, Pass::Slide, m);
    lemma_grid_pass_bounded(compress_grid(g, d), d, Pass::Merge, m);
    lemma_grid_pass_bounded(merge_grid(compress_grid(g, d), d), d, Pass::Slide, 2 * m);
}

/// A whole move keeps every cell a valid tile.
pub proof fn lemma_moved_grid_tiles(g: Seq<u32>, d: Direction)
    requires
        g.len() == 16,
        grid_tiles_ok(g),
        grid_bounded(g, 0x7FFF_FFFF),
    ensures
        grid_tiles_ok(moved_grid(g, d)),
{
    let m: int = 0x7FFF_FFFF;
    lemma_grid_pass_bounded(g, d, Pass::Slide, m);
    lemma_grid_pass_tiles(g, d, Pass::Slide);
    lemma_grid_pass_bounded(compress_grid(g, d), d, Pass::Merge, m);
    lemma_grid_pass_tiles(compress_grid(g, d), d, Pass::Merge);
    lemma_grid_pass_tiles(merge_grid(compress_grid(g, d), d), d, Pass::Slide);
}

/// The grid with every row reversed.
pub open spec fn mirror_rows(g: Seq<u32>) -> Seq<u32> {
    Seq::new(16, |k: int| g[4 * (k / 4) + (3 - k % 4)])
}

/// The grid with every column reversed.
pub open spec fn mirror_cols(g: Seq<u32>) -> Seq<u32> {
    Seq::new(16, |k: int| g[4 * (3 - k / 4) + k % 4])
}

} // verus!
