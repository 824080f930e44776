//! Geometry of the padded grid: flat row-major indexing, the interior /
//! border distinction, 8-neighborhood adjacency, and the number of live
//! cells around a position.  Everything here is specification-level; the
//! executable code lives in `board`.

use vstd::prelude::*;

verus! {

/// Flat row-major index of the position `(x, y)` on a grid `w` cells wide.
pub open spec fn flat(w: int, x: int, y: int) -> int {
    x + y * w
}

/// `(x, y)` lies on the padded grid (border included).
pub open spec fn in_grid(w: int, h: int, x: int, y: int) -> bool {
    0 <= x < w && 0 <= y < h
}

/// `(x, y)` is an interior position: inside the one-cell sentinel border.
pub open spec fn interior(w: int, h: int, x: int, y: int) -> bool {
    1 <= x < w - 1 && 1 <= y < h - 1
}

/// The two positions are distinct and touch horizontally, vertically or
/// diagonally: the 8-neighborhood relation.
pub open spec fn adjacent(x: int, y: int, u: int, v: int) -> bool {
    !(x == u && y == v) && -1 <= x - u <= 1 && -1 <= y - v <= 1
}

/// Column offset of the `t`-th neighbor relation of a cell.  The order is
/// the row below first, then the own row, then the row above, each left to
/// right, with the cell itself skipped.
pub open spec fn nbr_dx(t: int) -> int {
    if t == 0 { -1 } else if t == 1 { 0 } else if t == 2 { 1 }
    else if t == 3 { -1 } else if t == 4 { 1 }
    else if t == 5 { -1 } else if t == 6 { 0 } else { 1 }
}

/// Row offset of the `t`-th neighbor relation of a cell.
pub open spec fn nbr_dy(t: int) -> int {
    if t == 0 || t == 1 || t == 2 { 1 }
    else if t == 3 || t == 4 { 0 }
    else { -1 }
}

/// The flat indices of the eight neighbors of `(x, y)`, in registration
/// order.
pub open spec fn nbr_list(w: int, x: int, y: int) -> Seq<int> {
    Seq::new(8, |t: int| flat(w, x + nbr_dx(t), y + nbr_dy(t)))
}

/// A grid of alive flags, in flat row-major order.  `true` is a live cell.
pub type Grid = Seq<bool>;

/// The cell at `(x, y)` exists and is alive.  Positions off the grid count
/// as dead, so the sum below never needs bounds checks.
pub open spec fn alive_at(g: Grid, w: int, h: int, x: int, y: int) -> bool {
    in_grid(w, h, x, y) && g[flat(w, x, y)]
}

pub open spec fn one_if(b: bool) -> int {
    if b { 1 } else { 0 }
}

/// The number of live cells among the eight positions around `(x, y)`.
/// This is what every cell's cached neighbor count must equal.
pub open spec fn live_around(g: Grid, w: int, h: int, x: int, y: int) -> int {
    one_if(alive_at(g, w, h, x - 1, y + 1))
        + one_if(alive_at(g, w, h, x, y + 1))
        + one_if(alive_at(g, w, h, x + 1, y + 1))
        + one_if(alive_at(g, w, h, x - 1, y))
        + one_if(alive_at(g, w, h, x + 1, y))
        + one_if(alive_at(g, w, h, x - 1, y - 1))
        + one_if(alive_at(g, w, h, x, y - 1))
        + one_if(alive_at(g, w, h, x + 1, y - 1))
}

/// `(u, v)` is one of the first `t` neighbor offsets of `(x, y)`: the
/// positions already notified while a flip fans its delta out.
pub open spec fn bumped(x: int, y: int, t: int, u: int, v: int) -> bool {
    exists|j: int| 0 <= j < t && u == x + #[trigger] nbr_dx(j) && v == y + nbr_dy(j)
}

/// The eight neighbor offsets stay within the 3-by-3 block, skip the
/// center, and are pairwise distinct.
pub proof fn lemma_offsets()
    ensures
        forall|t: int| 0 <= t < 8
            ==> -1 <= #[trigger] nbr_dx(t) <= 1 && -1 <= nbr_dy(t) <= 1
                && !(nbr_dx(t) == 0 && nbr_dy(t) == 0),
        forall|a: int, b: int|
            #![trigger nbr_dx(a), nbr_dx(b)]
            0 <= a < 8 && 0 <= b < 8 && a != b
                ==> !(nbr_dx(a) == nbr_dx(b) && nbr_dy(a) == nbr_dy(b)),
{
}

/// Extending the notified prefix by one adds exactly the `t`-th offset
/// position.
pub proof fn lemma_bumped_step(x: int, y: int, t: int, u: int, v: int)
    requires
        0 <= t,
    ensures
        bumped(x, y, t + 1, u, v)
            <==> (bumped(x, y, t, u, v) || (u == x + nbr_dx(t) && v == y + nbr_dy(t))),
{
    if bumped(x, y, t + 1, u, v) {
        let j = choose|j: int| 0 <= j < t + 1 && u == x + #[trigger] nbr_dx(j) && v == y + nbr_dy(j);
        if j < t {
            assert(bumped(x, y, t, u, v));
        }
    }
    if bumped(x, y, t, u, v) {
        let j = choose|j: int| 0 <= j < t && u == x + #[trigger] nbr_dx(j) && v == y + nbr_dy(j);
        assert(0 <= j < t + 1 && u == x + nbr_dx(j) && v == y + nbr_dy(j));
        assert(bumped(x, y, t + 1, u, v));
    }
    if u == x + nbr_dx(t) && v == y + nbr_dy(t) {
        assert(bumped(x, y, t + 1, u, v));
    }
}

/// The `t`-th offset position was not yet notified among the first `t`:
/// no neighbor receives a delta twice.
pub proof fn lemma_not_bumped_yet(x: int, y: int, t: int)
    requires
        0 <= t < 8,
    ensures
        !bumped(x, y, t, x + nbr_dx(t), y + nbr_dy(t)),
{
    lemma_offsets();
    if bumped(x, y, t, x + nbr_dx(t), y + nbr_dy(t)) {
        let j = choose|j: int|
            0 <= j < t && x + nbr_dx(t) == x + #[trigger] nbr_dx(j)
                && y + nbr_dy(t) == y + nbr_dy(j);
        assert(nbr_dx(j) == nbr_dx(t) && nbr_dy(j) == nbr_dy(t));
        assert(false);
    }
}

/// After all eight notifications the bumped positions are exactly the
/// neighbors of `(x, y)`.
pub proof fn lemma_bumped_full(x: int, y: int, u: int, v: int)
    ensures
        bumped(x, y, 8, u, v) <==> adjacent(u, v, x, y),
{
    lemma_offsets();
    if bumped(x, y, 8, u, v) {
        let j = choose|j: int| 0 <= j < 8 && u == x + #[trigger] nbr_dx(j) && v == y + nbr_dy(j);
        assert(adjacent(u, v, x, y));
    }
    if adjacent(u, v, x, y) {
        let du = u - x;
        let dv = v - y;
        if dv == 1 {
            if du == -1 {
                assert(u == x + nbr_dx(0) && v == y + nbr_dy(0));
            } else if du == 0 {
                assert(u == x + nbr_dx(1) && v == y + nbr_dy(1));
            } else {
                assert(u == x + nbr_dx(2) && v == y + nbr_dy(2));
            }
        } else if dv == 0 {
            if du == -1 {
                assert(u == x + nbr_dx(3) && v == y + nbr_dy(3));
            } else {
                assert(u == x + nbr_dx(4) && v == y + nbr_dy(4));
            }
        } else {
            if du == -1 {
                assert(u == x + nbr_dx(5) && v == y + nbr_dy(5));
            } else if du == 0 {
                assert(u == x + nbr_dx(6) && v == y + nbr_dy(6));
            } else {
                assert(u == x + nbr_dx(7) && v == y + nbr_dy(7));
            }
        }
        assert(bumped(x, y, 8, u, v));
    }
}

/// Flat indices of in-grid positions are in bounds for the arena.
pub proof fn lemma_flat_bounds(w: int, h: int, x: int, y: int)
    requires
        in_grid(w, h, x, y),
    ensures
        0 <= flat(w, x, y) < w * h,
{
    assert(x + y * w <= (w - 1) + (h - 1) * w && (w - 1) + (h - 1) * w < w * h)
        by (nonlinear_arith)
        requires 0 <= x < w && 0 <= y < h;
    assert(0 <= x + y * w) by (nonlinear_arith)
        requires 0 <= x && 0 <= y && 0 < w;
}

/// Flat indexing is injective on positions with an in-range column.
pub proof fn lemma_flat_injective(w: int, x: int, y: int, u: int, v: int)
    requires
        0 <= x < w,
        0 <= u < w,
    ensures
        flat(w, x, y) == flat(w, u, v) <==> (x == u && y == v),
{
    if flat(w, x, y) == flat(w, u, v) {
        assert(x == u && y == v) by (nonlinear_arith)
            requires 0 <= x < w && 0 <= u < w && x + y * w == u + v * w;
    }
}

/// Updating the cell at `(x0, y0)` changes `alive_at` exactly there.
pub proof fn lemma_alive_at_update(g: Grid, w: int, h: int, x0: int, y0: int, b: bool, x: int, y: int)
    requires
        in_grid(w, h, x0, y0),
        g.len() == w * h,
    ensures
        alive_at(g.update(flat(w, x0, y0), b), w, h, x, y)
            == if x == x0 && y == y0 { b } else { alive_at(g, w, h, x, y) },
{
    lemma_flat_bounds(w, h, x0, y0);
    if in_grid(w, h, x, y) {
        lemma_flat_bounds(w, h, x, y);
        lemma_flat_injective(w, x, y, x0, y0);
    }
}

/// Flipping one cell moves the live count around `(x, y)` by one exactly
/// when `(x, y)` is adjacent to the flipped cell, and otherwise not at all.
pub proof fn lemma_live_around_update(g: Grid, w: int, h: int, x0: int, y0: int, b: bool, x: int, y: int)
    requires
        in_grid(w, h, x0, y0),
        g.len() == w * h,
    ensures
        live_around(g.update(flat(w, x0, y0), b), w, h, x, y)
            == live_around(g, w, h, x, y)
                + if adjacent(x0, y0, x, y) { one_if(b) - one_if(g[flat(w, x0, y0)]) } else { 0 },
{
    lemma_flat_bounds(w, h, x0, y0);
    lemma_alive_at_update(g, w, h, x0, y0, b, x - 1, y + 1);
    lemma_alive_at_update(g, w, h, x0, y0, b, x, y + 1);
    lemma_alive_at_update(g, w, h, x0, y0, b, x + 1, y + 1);
    lemma_alive_at_update(g, w, h, x0, y0, b, x - 1, y);
    lemma_alive_at_update(g, w, h, x0, y0, b, x + 1, y);
    lemma_alive_at_update(g, w, h, x0, y0, b, x - 1, y - 1);
    lemma_alive_at_update(g, w, h, x0, y0, b, x, y - 1);
    lemma_alive_at_update(g, w, h, x0, y0, b, x + 1, y - 1);
}

/// The live count around a position is at most the full neighborhood.
pub proof fn lemma_live_around_range(g: Grid, w: int, h: int, x: int, y: int)
    ensures
        0 <= live_around(g, w, h, x, y) <= 8,
{
}

/// A dead adjacent position leaves room in the neighborhood: the count
/// around `(x, y)` stays below eight.
pub proof fn lemma_live_around_below_full(g: Grid, w: int, h: int, x: int, y: int, u: int, v: int)
    requires
        adjacent(u, v, x, y),
        !alive_at(g, w, h, u, v),
    ensures
        live_around(g, w, h, x, y) <= 7,
{
}

/// A live adjacent position keeps the count around `(x, y)` above zero.
pub proof fn lemma_live_around_above_zero(g: Grid, w: int, h: int, x: int, y: int, u: int, v: int)
    requires
        adjacent(u, v, x, y),
        alive_at(g, w, h, u, v),
    ensures
        live_around(g, w, h, x, y) >= 1,
{
}

/// The birth/death rule: a position seen with three live neighbors is
/// alive afterwards, one seen with two keeps its state, and any other
/// count — underpopulation or overpopulation — leaves it dead.
pub open spec fn rule_next(alive: bool, n: int) -> bool {
    if n == 3 { true } else if n == 2 { alive } else { false }
}

/// One cell of a generation pass: the cell at `(x, y)` is set to what the
/// rule says for the count seen at that moment.  Cells visited later in
/// the same pass observe this change — the pass is a left-to-right,
/// bottom-up scan, not a simultaneous update.
pub open spec fn step_one(g: Grid, w: int, h: int, x: int, y: int) -> Grid {
    g.update(flat(w, x, y), rule_next(g[flat(w, x, y)], live_around(g, w, h, x, y)))
}

/// Row `y` of a generation pass, applied to the interior columns `1..x`.
pub open spec fn sweep_row(g: Grid, w: int, h: int, y: int, x: int) -> Grid
    decreases x,
{
    if x <= 1 {
        g
    } else {
        step_one(sweep_row(g, w, h, y, x - 1), w, h, x - 1, y)
    }
}

/// A generation pass applied to the interior rows `1..y`, each row swept
/// over all its interior columns.
pub open spec fn sweep(g: Grid, w: int, h: int, y: int) -> Grid
    decreases y,
{
    if y <= 1 {
        g
    } else {
        sweep_row(sweep(g, w, h, y - 1), w, h, y - 1, w - 1)
    }
}

/// The next generation: every interior cell visited once, in row-major
/// scan order, with each flip visible to the cells still to come.
pub open spec fn next_gen(g: Grid, w: int, h: int) -> Grid {
    sweep(g, w, h, h - 1)
}

/// At most the cell at `(xk, yk)` is alive on `g`: every other position
/// is dead.
pub open spec fn at_most_one_live(g: Grid, w: int, h: int, xk: int, yk: int) -> bool {
    forall|u: int, v: int|
        #![trigger alive_at(g, w, h, u, v)]
        in_grid(w, h, u, v) && !(u == xk && v == yk) ==> !alive_at(g, w, h, u, v)
}

/// With at most one live cell anywhere, no neighborhood holds more than
/// one live cell.
pub proof fn lemma_only_live_around(g: Grid, w: int, h: int, xk: int, yk: int, x: int, y: int)
    requires
        at_most_one_live(g, w, h, xk, yk),
    ensures
        live_around(g, w, h, x, y) <= 1,
{
}

/// Law: what one visit of the generation pass does to the visited cell,
/// as a function of the count seen at that moment.  A count of three
/// gives life whether or not the cell was alive; a count of two preserves
/// the state; any other count — underpopulation or overpopulation —
/// leaves the cell dead.
pub proof fn lemma_rule_outcome(g: Grid, w: int, h: int, x: int, y: int)
    requires
        in_grid(w, h, x, y),
        g.len() == w * h,
    ensures
        alive_at(step_one(g, w, h, x, y), w, h, x, y)
            == rule_next(alive_at(g, w, h, x, y), live_around(g, w, h, x, y)),
        live_around(g, w, h, x, y) == 3 ==> alive_at(step_one(g, w, h, x, y), w, h, x, y),
        live_around(g, w, h, x, y) == 2
            ==> alive_at(step_one(g, w, h, x, y), w, h, x, y) == alive_at(g, w, h, x, y),
        live_around(g, w, h, x, y) != 2 && live_around(g, w, h, x, y) != 3
            ==> !alive_at(step_one(g, w, h, x, y), w, h, x, y),
{
    lemma_flat_bounds(w, h, x, y);
    lemma_alive_at_update(
        g,
        w,
        h,
        x,
        y,
        rule_next(g[flat(w, x, y)], live_around(g, w, h, x, y)),
        x,
        y,
    );
}

proof fn lemma_sweep_row_dies(g: Grid, w: int, h: int, xk: int, yk: int, y: int, x: int)
    requires
        g.len() == w * h,
        at_most_one_live(g, w, h, xk, yk),
        1 <= y < h - 1,
        1 <= x <= w - 1,
        forall|u: int, v: int|
            #![trigger alive_at(g, w, h, u, v)]
            interior(w, h, u, v) && v < y ==> !alive_at(g, w, h, u, v),
    ensures
        sweep_row(g, w, h, y, x).len() == g.len(),
        at_most_one_live(sweep_row(g, w, h, y, x), w, h, xk, yk),
        forall|u: int, v: int|
            #![trigger alive_at(sweep_row(g, w, h, y, x), w, h, u, v)]
            interior(w, h, u, v) && (v < y || (v == y && u < x))
                ==> !alive_at(sweep_row(g, w, h, y, x), w, h, u, v),
    decreases x,
{
    if x > 1 {
        lemma_sweep_row_dies(g, w, h, xk, yk, y, x - 1);
        let r1 = sweep_row(g, w, h, y, x - 1);
        lemma_flat_bounds(w, h, x - 1, y);
        let r = step_one(r1, w, h, x - 1, y);
        assert(sweep_row(g, w, h, y, x) == r);
        assert(r.len() == r1.len());
        lemma_only_live_around(r1, w, h, xk, yk, x - 1, y);
        let b = rule_next(r1[flat(w, x - 1, y)], live_around(r1, w, h, x - 1, y));
        assert(!b);
        assert forall|u: int, v: int|
            #![trigger alive_at(r, w, h, u, v)]
            in_grid(w, h, u, v) implies alive_at(r, w, h, u, v)
                == if u == x - 1 && v == y { b } else { alive_at(r1, w, h, u, v) } by {
            lemma_alive_at_update(r1, w, h, x - 1, y, b, u, v);
        }
    }
}

proof fn lemma_sweep_dies(g: Grid, w: int, h: int, xk: int, yk: int, y: int)
    requires
        g.len() == w * h,
        2 <= w,
        2 <= h,
        at_most_one_live(g, w, h, xk, yk),
        1 <= y <= h - 1,
    ensures
        sweep(g, w, h, y).len() == g.len(),
        at_most_one_live(sweep(g, w, h, y), w, h, xk, yk),
        forall|u: int, v: int|
            #![trigger alive_at(sweep(g, w, h, y), w, h, u, v)]
            interior(w, h, u, v) && v < y ==> !alive_at(sweep(g, w, h, y), w, h, u, v),
    decreases y,
{
    if y > 1 {
        lemma_sweep_dies(g, w, h, xk, yk, y - 1);
        lemma_sweep_row_dies(sweep(g, w, h, y - 1), w, h, xk, yk, y - 1, w - 1);
    }
}

/// Law: a lone live cell dies out.  If at most the interior cell at
/// `(xk, yk)` is alive — it has no live neighbor, so its count is zero —
/// then after one generation pass the whole grid is dead.
pub proof fn lemma_lone_cell_dies(g: Grid, w: int, h: int, xk: int, yk: int)
    requires
        g.len() == w * h,
        interior(w, h, xk, yk),
        at_most_one_live(g, w, h, xk, yk),
    ensures
        forall|u: int, v: int|
            #![trigger alive_at(next_gen(g, w, h), w, h, u, v)]
            in_grid(w, h, u, v) ==> !alive_at(next_gen(g, w, h), w, h, u, v),
{
    lemma_sweep_dies(g, w, h, xk, yk, h - 1);
}

proof fn lemma_sweep_row_border(g: Grid, w: int, h: int, y: int, x: int, u: int, v: int)
    requires
        g.len() == w * h,
        1 <= y < h - 1,
        1 <= x <= w - 1,
        in_grid(w, h, u, v),
        !interior(w, h, u, v),
    ensures
        sweep_row(g, w, h, y, x).len() == g.len(),
        alive_at(sweep_row(g, w, h, y, x), w, h, u, v) == alive_at(g, w, h, u, v),
    decreases x,
{
    if x > 1 {
        lemma_sweep_row_border(g, w, h, y, x - 1, u, v);
        let r1 = sweep_row(g, w, h, y, x - 1);
        lemma_flat_bounds(w, h, x - 1, y);
        let b = rule_next(r1[flat(w, x - 1, y)], live_around(r1, w, h, x - 1, y));
        let r = step_one(r1, w, h, x - 1, y);
        assert(sweep_row(g, w, h, y, x) == r);
        assert(r.len() == r1.len());
        lemma_alive_at_update(r1, w, h, x - 1, y, b, u, v);
    }
}

proof fn lemma_sweep_border(g: Grid, w: int, h: int, y: int, u: int, v: int)
    requires
        g.len() == w * h,
        2 <= w,
        2 <= h,
        1 <= y <= h - 1,
        in_grid(w, h, u, v),
        !interior(w, h, u, v),
    ensures
        sweep(g, w, h, y).len() == g.len(),
        alive_at(sweep(g, w, h, y), w, h, u, v) == alive_at(g, w, h, u, v),
    decreases y,
{
    if y > 1 {
        lemma_sweep_border(g, w, h, y - 1, u, v);
        lemma_sweep_row_border(sweep(g, w, h, y - 1), w, h, y - 1, w - 1, u, v);
    }
}

/// Law: a generation pass never alters the border.  Every non-interior
/// position keeps its alive state across `next_gen`, whatever the grid
/// holds.
pub proof fn lemma_next_gen_border(g: Grid, w: int, h: int, u: int, v: int)
    requires
        g.len() == w * h,
        2 <= w,
        2 <= h,
        in_grid(w, h, u, v),
        !interior(w, h, u, v),
    ensures
        next_gen(g, w, h).len() == g.len(),
        alive_at(next_gen(g, w, h), w, h, u, v) == alive_at(g, w, h, u, v),
{
    lemma_sweep_border(g, w, h, h - 1, u, v);
}

/// On an all-dead grid every neighborhood is empty.
pub proof fn lemma_live_around_dead(g: Grid, w: int, h: int, x: int, y: int)
    requires
        g.len() == w * h,
        forall|i: int| 0 <= i < g.len() ==> !g[i],
    ensures
        live_around(g, w, h, x, y) == 0,
{
    assert forall|u: int, v: int| !alive_at(g, w, h, u, v) by {
        if in_grid(w, h, u, v) {
            lemma_flat_bounds(w, h, u, v);
        }
    }
}

} // verus!
