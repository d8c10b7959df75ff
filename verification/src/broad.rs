//! Broad-phase collision detection: a uniform spatial grid.
//!
//! Every sub-step the grid is rebuilt from the current positions: each
//! dynamic circle registers its index in every cell its bounding box
//! (center plus or minus radius) overlaps, so a circle may appear in several
//! cells. Every unordered pair of indices sharing a cell is a collision
//! candidate; a pair sharing several cells is simply tested more than once,
//! which is safe because narrow-phase resolution leaves separated pairs
//! untouched. Cells are kept in first-insertion order, so the whole pass is
//! deterministic and has a closed functional specification.

use vstd::prelude::*;
use vstd::pervasive::VecAdditionalExecFns;
use crate::body::{Circle, CircleModel, circle_models};
use crate::collision::{avoid_collision, collide};
use crate::fixed::{floor_div, fx_add, fx_sub, s_add, s_sub, FX_MAX};

verus! {

/// One bucket of the spatial grid: a cell coordinate pair and the indices
/// of the circles whose bounding boxes overlap that cell.
pub struct Cell {
    pub cx: i64,
    pub cy: i64,
    pub idxs: Vec<usize>,
}

/// Ghost model of a grid cell.
pub ghost struct CellModel {
    pub cx: int,
    pub cy: int,
    pub idxs: Seq<int>,
}

impl View for Cell {
    type V = CellModel;

    open spec fn view(&self) -> CellModel {
        CellModel {
            cx: self.cx as int,
            cy: self.cy as int,
            idxs: self.idxs@.map_values(|i: usize| i as int),
        }
    }
}

/// The models of a sequence of cells.
pub open spec fn cell_models(s: Seq<Cell>) -> Seq<CellModel> {
    s.map_values(|c: Cell| c@)
}

/// Whether a cell sits at the grid coordinates `(cx, cy)`.
pub open spec fn cell_at(c: CellModel, cx: int, cy: int) -> bool {
    c.cx == cx && c.cy == cy
}

/// Whether appending `i` to the bucket `idxs` keeps it strictly increasing:
/// a circle walks its cell range once per rebuild, so its index arrives at
/// most once per cell and always above the indices of earlier circles.
pub open spec fn extends_bucket(idxs: Seq<int>, i: int) -> bool {
    idxs.len() == 0 || idxs.last() < i
}

/// Registers index `i` in the cell at `(cx, cy)`: appended to the first
/// cell with those coordinates, or to a fresh cell at the end. An index
/// that would not extend the bucket is already registered and stays put.
pub open spec fn cells_insert(cells: Seq<CellModel>, cx: int, cy: int, i: int) -> Seq<CellModel>
    decreases cells.len(),
{
    if cells.len() == 0 {
        seq![CellModel { cx, cy, idxs: seq![i] }]
    } else if cell_at(cells[0], cx, cy) {
        if extends_bucket(cells[0].idxs, i) {
            seq![CellModel { cx, cy, idxs: cells[0].idxs.push(i) }] + cells.drop_first()
        } else {
            cells
        }
    } else {
        seq![cells[0]] + cells_insert(cells.drop_first(), cx, cy, i)
    }
}

/// Registers index `i` in the cells of one grid column, rows `cy..=max_y`.
pub open spec fn insert_rows(cells: Seq<CellModel>, cx: int, cy: int, max_y: int, i: int) -> Seq<
    CellModel,
>
    decreases max_y + 1 - cy,
{
    if cy > max_y {
        cells
    } else {
        insert_rows(cells_insert(cells, cx, cy, i), cx, cy + 1, max_y, i)
    }
}

/// Registers index `i` in every cell of the rectangle of grid coordinates
/// `cx..=max_x` by `min_y..=max_y`.
pub open spec fn insert_cols(
    cells: Seq<CellModel>,
    cx: int,
    max_x: int,
    min_y: int,
    max_y: int,
    i: int,
) -> Seq<CellModel>
    decreases max_x + 1 - cx,
{
    if cx > max_x {
        cells
    } else {
        insert_cols(insert_rows(cells, cx, min_y, max_y, i), cx + 1, max_x, min_y, max_y, i)
    }
}

/// The inclusive grid-coordinate ranges `(min_x, max_x, min_y, max_y)` that
/// a circle's bounding box spans, by floor division with the cell size.
pub open spec fn circle_cell_bounds(c: CircleModel, cell_size: int) -> (int, int, int, int) {
    (
        s_sub(c.x, c.r) / cell_size,
        s_add(c.x, c.r) / cell_size,
        s_sub(c.y, c.r) / cell_size,
        s_add(c.y, c.r) / cell_size,
    )
}

/// The grid after registering the circles `s[i..]` on top of `cells`.
pub open spec fn build_cells_from(
    cells: Seq<CellModel>,
    s: Seq<CircleModel>,
    i: int,
    cell_size: int,
) -> Seq<CellModel>
    decreases s.len() - i,
{
    if i < 0 || i >= s.len() {
        cells
    } else {
        let (min_x, max_x, min_y, max_y) = circle_cell_bounds(s[i], cell_size);
        build_cells_from(insert_cols(cells, min_x, max_x, min_y, max_y, i), s, i + 1, cell_size)
    }
}

/// The spatial grid of a set of circles, built in index order.
pub open spec fn build_cells_spec(s: Seq<CircleModel>, cell_size: int) -> Seq<CellModel> {
    build_cells_from(Seq::empty(), s, 0, cell_size)
}

proof fn lemma_cells_insert_found(cells: Seq<CellModel>, cx: int, cy: int, i: int, m: int)
    requires
        0 <= m < cells.len(),
        forall|j: int| 0 <= j < m ==> !cell_at(#[trigger] cells[j], cx, cy),
        cell_at(cells[m], cx, cy),
    ensures
        extends_bucket(cells[m].idxs, i) ==> cells_insert(cells, cx, cy, i) == cells.update(
            m,
            CellModel { cx, cy, idxs: cells[m].idxs.push(i) },
        ),
        !extends_bucket(cells[m].idxs, i) ==> cells_insert(cells, cx, cy, i) == cells,
    decreases m,
{
    if m == 0 {
        if extends_bucket(cells[0].idxs, i) {
            assert(cells_insert(cells, cx, cy, i) =~= cells.update(
                0,
                CellModel { cx, cy, idxs: cells[0].idxs.push(i) },
            ));
        }
    } else {
        let rest = cells.drop_first();
        assert(forall|j: int| 0 <= j < m - 1 ==> !cell_at(#[trigger] rest[j], cx, cy));
        lemma_cells_insert_found(rest, cx, cy, i, m - 1);
        if extends_bucket(cells[m].idxs, i) {
            assert(cells_insert(cells, cx, cy, i) =~= cells.update(
                m,
                CellModel { cx, cy, idxs: cells[m].idxs.push(i) },
            ));
        } else {
            assert(cells_insert(cells, cx, cy, i) =~= cells);
        }
    }
}

proof fn lemma_cells_insert_missing(cells: Seq<CellModel>, cx: int, cy: int, i: int)
    requires
        forall|j: int| 0 <= j < cells.len() ==> !cell_at(#[trigger] cells[j], cx, cy),
    ensures
        cells_insert(cells, cx, cy, i) == cells.push(CellModel { cx, cy, idxs: seq![i] }),
    decreases cells.len(),
{
    if cells.len() == 0 {
        assert(cells_insert(cells, cx, cy, i) =~= cells.push(CellModel { cx, cy, idxs: seq![i] }));
    } else {
        let rest = cells.drop_first();
        lemma_cells_insert_missing(rest, cx, cy, i);
        assert(cells_insert(cells, cx, cy, i) =~= cells.push(CellModel { cx, cy, idxs: seq![i] }));
    }
}

/// Appends index `i` to the first cell at `(cx, cy)`, or starts a new cell.
fn insert_into_cells(cells: &mut Vec<Cell>, cx: i64, cy: i64, i: usize)
    ensures
        cell_models(final(cells)@) == cells_insert(
            cell_models(old(cells)@),
            cx as int,
            cy as int,
            i as int,
        ),
{
    let ghost orig = cell_models(cells@);
    let n = cells.len();
    let mut k: usize = 0;
    while k < n
        invariant
            0 <= k <= n,
            n == cells@.len(),
            cells@ == old(cells)@,
            orig == cell_models(cells@),
            forall|j: int| 0 <= j < k ==> !cell_at(#[trigger] orig[j], cx as int, cy as int),
        decreases n - k,
    {
        proof {
            assert(orig[k as int] == cells@[k as int]@);
        }
        if cells[k].cx == cx && cells[k].cy == cy {
            proof {
                lemma_cells_insert_found(orig, cx as int, cy as int, i as int, k as int);
            }
            let bucket_len = cells[k].idxs.len();
            if bucket_len == 0 || cells[k].idxs[bucket_len - 1] < i {
                let mut taken = Cell { cx, cy, idxs: Vec::new() };
                cells.set_and_swap(k, &mut taken);
                taken.idxs.push(i);
                cells.set_and_swap(k, &mut taken);
                proof {
                    assert(cells@[k as int]@.idxs =~= orig[k as int].idxs.push(i as int));
                    assert(cell_models(cells@) =~= cells_insert(
                        orig,
                        cx as int,
                        cy as int,
                        i as int,
                    ));
                }
            } else {
                proof {
                    assert(!extends_bucket(orig[k as int].idxs, i as int));
                    assert(cell_models(cells@) =~= cells_insert(
                        orig,
                        cx as int,
                        cy as int,
                        i as int,
                    ));
                }
            }
            return ;
        }
        k = k + 1;
    }
    let mut fresh_idxs: Vec<usize> = Vec::new();
    fresh_idxs.push(i);
    cells.push(Cell { cx, cy, idxs: fresh_idxs });
    proof {
        lemma_cells_insert_missing(orig, cx as int, cy as int, i as int);
        assert(cells@[orig.len() as int]@.idxs =~= seq![i as int]);
        assert(cell_models(cells@) =~= cells_insert(orig, cx as int, cy as int, i as int));
    }
}

/// Builds the spatial grid of all circles at their current positions.
pub fn build_cells(circles: &Vec<Circle>, cell_size: i64) -> (cells: Vec<Cell>)
    requires
        1 <= cell_size,
    ensures
        cell_models(cells@) == build_cells_spec(circle_models(circles@), cell_size as int),
{
    let ghost s = circle_models(circles@);
    let ghost cs = cell_size as int;
    let mut cells: Vec<Cell> = Vec::new();
    let n = circles.len();
    let mut i: usize = 0;
    proof {
        assert(cell_models(cells@) =~= Seq::<CellModel>::empty());
    }
    while i < n
        invariant
            0 <= i <= n,
            n == circles@.len(),
            s == circle_models(circles@),
            cs == cell_size as int,
            1 <= cell_size,
            build_cells_from(cell_models(cells@), s, i as int, cs) == build_cells_spec(s, cs),
        decreases n - i,
    {
        let c = circles[i];
        let min_x = floor_div(fx_sub(c.x_pos, c.radius), cell_size);
        let max_x = floor_div(fx_add(c.x_pos, c.radius), cell_size);
        let min_y = floor_div(fx_sub(c.y_pos, c.radius), cell_size);
        let max_y = floor_div(fx_add(c.y_pos, c.radius), cell_size);
        proof {
            assert(circle_cell_bounds(s[i as int], cs) == (
                min_x as int,
                max_x as int,
                min_y as int,
                max_y as int,
            ));
        }
        let mut cx = min_x;
        while cx <= max_x
            invariant
                s == circle_models(circles@),
                cs == cell_size as int,
                i < circles@.len(),
                -FX_MAX <= cx,
                max_x <= FX_MAX,
                min_y >= -FX_MAX,
                max_y <= FX_MAX,
                build_cells_from(
                    insert_cols(cell_models(cells@), cx as int, max_x as int, min_y as int,
                    max_y as int, i as int),
                    s,
                    i + 1,
                    cs,
                ) == build_cells_spec(s, cs),
            decreases max_x + 1 - cx,
        {
            let mut cy = min_y;
            while cy <= max_y
                invariant
                    s == circle_models(circles@),
                    cs == cell_size as int,
                    i < circles@.len(),
                    -FX_MAX <= cx <= FX_MAX,
                    -FX_MAX <= cy,
                    max_x <= FX_MAX,
                    min_y >= -FX_MAX,
                    max_y <= FX_MAX,
                    cx <= max_x,
                    build_cells_from(
                        insert_cols(
                            insert_rows(cell_models(cells@), cx as int, cy as int, max_y as int,
                            i as int),
                            cx + 1,
                            max_x as int,
                            min_y as int,
                            max_y as int,
                            i as int,
                        ),
                        s,
                        i + 1,
                        cs,
                    ) == build_cells_spec(s, cs),
                decreases max_y + 1 - cy,
            {
                insert_into_cells(&mut cells, cx, cy, i);
                cy = cy + 1;
            }
            cx = cx + 1;
        }
        i = i + 1;
    }
    cells
}

/// A well-formed cell for a world of `n` circles: a strictly increasing
/// bucket of indices below `n`, so no bucket repeats an index.
pub open spec fn cell_wf(c: CellModel, n: int) -> bool {
    &&& forall|a: int, b: int| 0 <= a < b < c.idxs.len() ==> #[trigger] c.idxs[a]
        < #[trigger] c.idxs[b]
    &&& forall|a: int| 0 <= a < c.idxs.len() ==> 0 <= #[trigger] c.idxs[a] < n
}

/// Every cell of the grid is well formed.
pub open spec fn cells_wf(cells: Seq<CellModel>, n: int) -> bool {
    forall|j: int| 0 <= j < cells.len() ==> cell_wf(#[trigger] cells[j], n)
}

proof fn lemma_cells_insert_wf(cells: Seq<CellModel>, cx: int, cy: int, i: int, n: int)
    requires
        0 <= i < n,
        cells_wf(cells, n),
    ensures
        cells_wf(cells_insert(cells, cx, cy, i), n),
    decreases cells.len(),
{
    let r = cells_insert(cells, cx, cy, i);
    if cells.len() == 0 {
        assert(r[0].idxs == seq![i]);
        assert(cell_wf(r[0], n));
    } else if cell_at(cells[0], cx, cy) {
        if extends_bucket(cells[0].idxs, i) {
            let grown = cells[0].idxs.push(i);
            assert forall|a: int, b: int| 0 <= a < b < grown.len() implies #[trigger] grown[a]
                < #[trigger] grown[b] by {
                if b == grown.len() - 1 {
                    if a < cells[0].idxs.len() - 1 {
                        assert(cells[0].idxs[a] < cells[0].idxs.last());
                    }
                }
            };
            assert(cell_wf(r[0], n));
            assert forall|j: int| 0 <= j < r.len() implies cell_wf(#[trigger] r[j], n) by {
                if j > 0 {
                    assert(r[j] == cells[j]);
                }
            };
        }
    } else {
        let rest = cells.drop_first();
        assert(forall|j: int| 0 <= j < rest.len() ==> cell_wf(#[trigger] rest[j], n));
        lemma_cells_insert_wf(rest, cx, cy, i, n);
        let tail = cells_insert(rest, cx, cy, i);
        assert forall|j: int| 0 <= j < r.len() implies cell_wf(#[trigger] r[j], n) by {
            if j > 0 {
                assert(r[j] == tail[j - 1]);
            }
        };
    }
}

proof fn lemma_insert_rows_wf(
    cells: Seq<CellModel>,
    cx: int,
    cy: int,
    max_y: int,
    i: int,
    n: int,
)
    requires
        0 <= i < n,
        cells_wf(cells, n),
    ensures
        cells_wf(insert_rows(cells, cx, cy, max_y, i), n),
    decreases max_y + 1 - cy,
{
    if cy > max_y {
    } else {
        lemma_cells_insert_wf(cells, cx, cy, i, n);
        lemma_insert_rows_wf(cells_insert(cells, cx, cy, i), cx, cy + 1, max_y, i, n);
    }
}

proof fn lemma_insert_cols_wf(
    cells: Seq<CellModel>,
    cx: int,
    max_x: int,
    min_y: int,
    max_y: int,
    i: int,
    n: int,
)
    requires
        0 <= i < n,
        cells_wf(cells, n),
    ensures
        cells_wf(insert_cols(cells, cx, max_x, min_y, max_y, i), n),
    decreases max_x + 1 - cx,
{
    if cx > max_x {
    } else {
        lemma_insert_rows_wf(cells, cx, min_y, max_y, i, n);
        lemma_insert_cols_wf(
            insert_rows(cells, cx, min_y, max_y, i),
            cx + 1,
            max_x,
            min_y,
            max_y,
            i,
            n,
        );
    }
}

proof fn lemma_build_from_wf(cells: Seq<CellModel>, s: Seq<CircleModel>, i: int, cell_size: int)
    requires
        cells_wf(cells, s.len() as int),
    ensures
        cells_wf(build_cells_from(cells, s, i, cell_size), s.len() as int),
    decreases s.len() - i,
{
    if i < 0 || i >= s.len() {
    } else {
        let (min_x, max_x, min_y, max_y) = circle_cell_bounds(s[i], cell_size);
        lemma_insert_cols_wf(cells, min_x, max_x, min_y, max_y, i, s.len() as int);
        lemma_build_from_wf(
            insert_cols(cells, min_x, max_x, min_y, max_y, i),
            s,
            i + 1,
            cell_size,
        );
    }
}

/// The grid the simulation builds is well formed: every bucket lists
/// strictly increasing circle indices below the number of circles, so the
/// bucket's unordered pairs are always pairs of distinct valid indices and
/// the defensive index tests of the resolution pass never fire.
pub proof fn lemma_built_cells_wf(s: Seq<CircleModel>, cell_size: int)
    ensures
        cells_wf(build_cells_spec(s, cell_size), s.len() as int),
{
    lemma_build_from_wf(Seq::empty(), s, 0, cell_size);
}

/// One candidate pair resolved in place: a no-op unless both indices are
/// in range and distinct (a well-built grid only yields such pairs).
pub open spec fn pair_step(s: Seq<CircleModel>, i: int, j: int) -> Seq<CircleModel> {
    if 0 <= i < s.len() && 0 <= j < s.len() && i != j {
        let (a2, b2) = collide(s[i], s[j]);
        s.update(i, a2).update(j, b2)
    } else {
        s
    }
}

/// Pairs `(idxs[a], idxs[b])` for `b` in `b..idxs.len()`, resolved in order.
pub open spec fn resolve_inner(s: Seq<CircleModel>, idxs: Seq<int>, a: int, b: int) -> Seq<
    CircleModel,
>
    decreases idxs.len() - b,
{
    if a < 0 || a >= idxs.len() || b < 0 || b >= idxs.len() {
        s
    } else {
        resolve_inner(pair_step(s, idxs[a], idxs[b]), idxs, a, b + 1)
    }
}

/// All unordered pairs within one cell bucket, from position `a` on,
/// resolved in order.
pub open spec fn resolve_cell(s: Seq<CircleModel>, idxs: Seq<int>, a: int) -> Seq<CircleModel>
    decreases idxs.len() - a,
{
    if a < 0 || a >= idxs.len() {
        s
    } else {
        resolve_cell(resolve_inner(s, idxs, a, a + 1), idxs, a + 1)
    }
}

/// Every candidate pair of every cell bucket from `k` on, resolved in order.
pub open spec fn resolve_cells(s: Seq<CircleModel>, cells: Seq<CellModel>, k: int) -> Seq<
    CircleModel,
>
    decreases cells.len() - k,
{
    if k < 0 || k >= cells.len() {
        s
    } else {
        resolve_cells(resolve_cell(s, cells[k].idxs, 0), cells, k + 1)
    }
}

/// Resolves every candidate pair the grid reports, cell by cell.
pub fn resolve_collisions(circles: &mut Vec<Circle>, cells: &Vec<Cell>)
    ensures
        circle_models(final(circles)@) == resolve_cells(
            circle_models(old(circles)@),
            cell_models(cells@),
            0,
        ),
{
    let ghost cellsm = cell_models(cells@);
    let ghost goal = resolve_cells(circle_models(circles@), cellsm, 0);
    let ncells = cells.len();
    let mut k: usize = 0;
    while k < ncells
        invariant
            0 <= k <= ncells,
            ncells == cells@.len(),
            cellsm == cell_models(cells@),
            resolve_cells(circle_models(circles@), cellsm, k as int) == goal,
        decreases ncells - k,
    {
        let bucket_len = cells[k].idxs.len();
        proof {
            assert(cellsm[k as int].idxs == cells@[k as int]@.idxs);
        }
        let mut a: usize = 0;
        while a < bucket_len
            invariant
                0 <= a <= bucket_len,
                k < cells@.len(),
                bucket_len == cells@[k as int].idxs@.len(),
                cellsm == cell_models(cells@),
                cellsm[k as int].idxs == cells@[k as int]@.idxs,
                resolve_cells(
                    resolve_cell(circle_models(circles@), cellsm[k as int].idxs, a as int),
                    cellsm,
                    k + 1,
                ) == goal,
            decreases bucket_len - a,
        {
            let mut b: usize = a + 1;
            while b < bucket_len
                invariant
                    a < b <= bucket_len,
                    k < cells@.len(),
                    a < bucket_len,
                    bucket_len == cells@[k as int].idxs@.len(),
                    cellsm == cell_models(cells@),
                    cellsm[k as int].idxs == cells@[k as int]@.idxs,
                    resolve_cells(
                        resolve_cell(
                            resolve_inner(circle_models(circles@), cellsm[k as int].idxs,
                            a as int, b as int),
                            cellsm[k as int].idxs,
                            a + 1,
                        ),
                        cellsm,
                        k + 1,
                    ) == goal,
                decreases bucket_len - b,
            {
                let i = cells[k].idxs[a];
                let j = cells[k].idxs[b];
                let ghost before = circle_models(circles@);
                if i != j && i < circles.len() && j < circles.len() {
                    let mut ca = circles[i];
                    let mut cb = circles[j];
                    avoid_collision(&mut ca, &mut cb);
                    circles.set(i, ca);
                    circles.set(j, cb);
                    proof {
                        assert(circle_models(circles@) =~= before.update(i as int, ca@).update(
                            j as int,
                            cb@,
                        ));
                        assert(circle_models(circles@) == pair_step(before, i as int, j as int));
                    }
                } else {
                    proof {
                        assert(circle_models(circles@) == pair_step(before, i as int, j as int));
                    }
                }
                b = b + 1;
            }
            a = a + 1;
        }
        k = k + 1;
    }
    proof {
        assert(resolve_cells(circle_models(circles@), cellsm, ncells as int)
            == circle_models(circles@));
    }
}

} // verus!
