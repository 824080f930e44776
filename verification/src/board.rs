//! The board: a flat, row-major arena of cells padded by a one-cell
//! sentinel border, wired once so that every interior cell holds the flat
//! indices of its eight neighbors.  A state flip pushes a +1/-1 delta to
//! each registered neighbor, which keeps every cached neighbor count equal
//! to the number of live cells around its position; that equality is the
//! board's central invariant, `wf`.

use vstd::prelude::*;
use crate::cell::{Cell, Point};
use crate::grid::{
    Grid, adjacent, alive_at, bumped, flat, in_grid, interior, lemma_bumped_full,
    lemma_bumped_step, lemma_flat_bounds, lemma_flat_injective, lemma_live_around_above_zero,
    lemma_live_around_below_full, lemma_live_around_dead, lemma_live_around_range,
    lemma_live_around_update, lemma_not_bumped_yet, lemma_offsets, live_around, nbr_dx, nbr_dy,
    nbr_list, next_gen, one_if, rule_next, step_one, sweep, sweep_row,
};
use crate::types::ReferencedCell;

verus! {

/// The eight registered relations of an interior cell at `(x, y)`, in
/// registration order.
pub open spec fn is_nbr_list(s: Seq<ReferencedCell>, w: int, x: int, y: int) -> bool {
    &&& s.len() == 8
    &&& forall|t: int| 0 <= t < 8 ==> #[trigger] (s[t] as int) == nbr_list(w, x, y)[t]
}

/// The number of live cells among the relations in `s`: how many of the
/// registered neighbors are alive on the grid `g`.
pub open spec fn live_in_list(g: Grid, s: Seq<ReferencedCell>) -> int
    decreases s.len(),
{
    if s.len() == 0 {
        0
    } else {
        live_in_list(g, s.drop_last())
            + one_if(0 <= (s.last() as int) < g.len() && g[s.last() as int])
    }
}

/// A cell as `Board::new` allocates it: dead, zero count, no relations.
pub open spec fn fresh_cell(c: Cell) -> bool {
    &&& !c.survive
    &&& c.around_survivers_count == 0
    &&& c.around_cells@.len() == 0
}

pub struct Board {
    /// All cells, border included, in flat row-major order.
    pub inner: Vec<Cell>,
    /// Padded width: the requested width plus the two border columns.
    pub width: usize,
    /// Padded height: the requested height plus the two border rows.
    pub height: usize,
}

impl Board {
    pub open spec fn w(self) -> int {
        self.width as int
    }

    pub open spec fn h(self) -> int {
        self.height as int
    }

    /// The alive flags of all cells, in arena order.
    pub open spec fn grid(self) -> Grid {
        self.inner@.map_values(|c: Cell| c.survive)
    }

    /// The cell stored at position `(x, y)`.
    pub open spec fn cell_spec(self, x: int, y: int) -> Cell {
        self.inner@[flat(self.w(), x, y)]
    }

    pub open spec fn alive(self, x: int, y: int) -> bool {
        self.cell_spec(x, y).survive
    }

    pub open spec fn count_at(self, x: int, y: int) -> int {
        self.cell_spec(x, y).around_survivers_count as int
    }

    pub open spec fn nbrs_at(self, x: int, y: int) -> Seq<ReferencedCell> {
        self.cell_spec(x, y).around_cells@
    }

    pub open spec fn dims_ok(self) -> bool {
        &&& self.width >= 2
        &&& self.height >= 2
        &&& self.inner@.len() == self.w() * self.h()
    }

    /// Border cells are dead and hold no relations.
    pub open spec fn border_ok(self) -> bool {
        forall|x: int, y: int|
            #![trigger self.cell_spec(x, y)]
            in_grid(self.w(), self.h(), x, y) && !interior(self.w(), self.h(), x, y)
                ==> !self.cell_spec(x, y).survive && self.cell_spec(x, y).around_cells@.len() == 0
    }

    /// Every interior cell holds exactly its eight neighbor indices.
    pub open spec fn wired_ok(self) -> bool {
        forall|x: int, y: int|
            #![trigger self.cell_spec(x, y)]
            interior(self.w(), self.h(), x, y)
                ==> is_nbr_list(self.cell_spec(x, y).around_cells@, self.w(), x, y)
    }

    /// Every cached neighbor count equals the number of live cells around
    /// its position.
    pub open spec fn counts_ok(self) -> bool {
        forall|x: int, y: int|
            #![trigger self.cell_spec(x, y)]
            in_grid(self.w(), self.h(), x, y)
                ==> self.cell_spec(x, y).around_survivers_count
                    == live_around(self.grid(), self.w(), self.h(), x, y)
    }

    /// The board's invariant: held after wiring and preserved by every
    /// mutation.
    pub open spec fn wf(self) -> bool {
        &&& self.dims_ok()
        &&& self.border_ok()
        &&& self.wired_ok()
        &&& self.counts_ok()
    }

    /// A board whose relations may still be missing: what `new` returns
    /// and `set_ref` accepts.  A fully wired board qualifies too, so
    /// wiring twice is tolerated.
    pub open spec fn wirable(self) -> bool {
        &&& self.dims_ok()
        &&& self.border_ok()
        &&& self.counts_ok()
        &&& forall|x: int, y: int|
            #![trigger self.cell_spec(x, y)]
            interior(self.w(), self.h(), x, y)
                ==> self.cell_spec(x, y).around_cells@.len() == 0
                    || is_nbr_list(self.cell_spec(x, y).around_cells@, self.w(), x, y)
    }

    /// The two boards have the same dimensions and identical relations and
    /// positions cell by cell: mutation never rewires a board.
    pub open spec fn same_shape(self, other: Board) -> bool {
        &&& self.width == other.width
        &&& self.height == other.height
        &&& self.inner@.len() == other.inner@.len()
        &&& forall|i: int|
            #![trigger other.inner@[i]]
            0 <= i < self.inner@.len()
                ==> other.inner@[i].around_cells@ == self.inner@[i].around_cells@
                    && other.inner@[i].pt == self.inner@[i].pt
    }

    /// Allocates the padded arena of dead cells, each carrying its own
    /// padded position.  Wiring the neighbor relations is a separate,
    /// explicit step (`init` / `set_ref`): a board that is not yet wired
    /// cannot be mutated, because every mutating operation requires `wf`.
    pub fn new(width: usize, height: usize) -> (b: Board)
        requires
            width + 2 <= usize::MAX,
            height + 2 <= usize::MAX,
            (width + 2) * (height + 2) <= usize::MAX,
        ensures
            b.width == width + 2,
            b.height == height + 2,
            b.wirable(),
            forall|i: int| 0 <= i < b.inner@.len() ==> fresh_cell(#[trigger] b.inner@[i]),
            forall|x: int, y: int|
                #![trigger b.cell_spec(x, y)]
                in_grid(b.w(), b.h(), x, y)
                    ==> b.cell_spec(x, y).pt == Point(x as usize, y as usize),
    {
        let w = width + 2;
        let h = height + 2;
        let mut cells: Vec<Cell> = Vec::new();
        let mut y: usize = 0;
        while y < h
            invariant
                y <= h,
                cells@.len() == y * w,
                y * w <= w * h,
                forall|i: int| 0 <= i < cells@.len() ==> fresh_cell(#[trigger] cells@[i]),
                forall|u: int, v: int|
                    #![trigger cells@[flat(w as int, u, v)]]
                    0 <= u < w && 0 <= v < y
                        ==> cells@[flat(w as int, u, v)].pt == Point(u as usize, v as usize),
            decreases h - y,
        {
            let mut x: usize = 0;
            proof {
                assert((y + 1) * w == y * w + w) by (nonlinear_arith);
                assert((y + 1) * w <= h * w && h * w == w * h) by (nonlinear_arith)
                    requires y + 1 <= h && w >= 0;
            }
            while x < w
                invariant
                    x <= w,
                    y < h,
                    cells@.len() == y * w + x,
                    y * w + w <= w * h,
                    forall|i: int| 0 <= i < cells@.len() ==> fresh_cell(#[trigger] cells@[i]),
                    forall|u: int, v: int|
                        #![trigger cells@[flat(w as int, u, v)]]
                        0 <= u < w && 0 <= v <= y && (v < y || u < x)
                            ==> cells@[flat(w as int, u, v)].pt == Point(u as usize, v as usize),
                decreases w - x,
            {
                let ghost prev = cells@;
                cells.push(Cell::new(Point::new(x, y)));
                proof {
                    assert(flat(w as int, x as int, y as int) == prev.len());
                    assert forall|u: int, v: int|
                        #![trigger cells@[flat(w as int, u, v)]]
                        0 <= u < w && 0 <= v <= y && (v < y || u < x + 1)
                            implies cells@[flat(w as int, u, v)].pt
                                == Point(u as usize, v as usize) by {
                        if u == x as int && v == y as int {
                            assert(cells@[flat(w as int, u, v)] == cells@.last());
                        } else {
                            assert(u + v * (w as int) < (y as int) * (w as int) + x)
                                by (nonlinear_arith)
                                requires
                                    0 <= u < w,
                                    0 <= v <= y,
                                    v < y || u < x,
                                    !(u == x && v == y);
                            assert(cells@[flat(w as int, u, v)] == prev[flat(w as int, u, v)]);
                            assert(prev[flat(w as int, u, v)].pt == Point(u as usize, v as usize));
                        }
                    }
                }
                x = x + 1;
            }
            y = y + 1;
            proof {
                assert(y * w == (y - 1) * w + w) by (nonlinear_arith);
            }
        }
        let b = Board { inner: cells, width: w, height: h };
        proof {
            assert(b.inner@.len() == b.w() * b.h()) by (nonlinear_arith)
                requires b.inner@.len() == (h as int) * (w as int) && b.w() == w && b.h() == h;
            assert forall|i: int| 0 <= i < b.grid().len() implies !b.grid()[i] by {
                assert(fresh_cell(b.inner@[i]));
            }
            assert forall|x: int, y: int|
                #![trigger b.cell_spec(x, y)]
                in_grid(b.w(), b.h(), x, y) implies fresh_cell(b.cell_spec(x, y))
                    && b.cell_spec(x, y).around_survivers_count
                        == live_around(b.grid(), b.w(), b.h(), x, y)
                    && b.cell_spec(x, y).pt == Point(x as usize, y as usize) by {
                lemma_flat_bounds(b.w(), b.h(), x, y);
                lemma_live_around_dead(b.grid(), b.w(), b.h(), x, y);
                assert(b.inner@[flat(w as int, x, y)].pt == Point(x as usize, y as usize));
            }
        }
        b
    }

    /// Flat index of `(x, y)`, in bounds for the arena.
    fn flat_index(&self, x: usize, y: usize) -> (k: usize)
        requires
            self.dims_ok(),
            in_grid(self.w(), self.h(), x as int, y as int),
        ensures
            k == flat(self.w(), x as int, y as int),
            k < self.inner@.len(),
    {
        let n = self.inner.len();
        proof {
            lemma_flat_bounds(self.w(), self.h(), x as int, y as int);
            assert(flat(self.w(), x as int, y as int) < n);
        }
        x + y * self.width
    }

    /// Read access to the cell at `(x, y)`, border included.
    pub fn cell_at(&self, x: usize, y: usize) -> (c: &Cell)
        requires
            self.dims_ok(),
            in_grid(self.w(), self.h(), x as int, y as int),
        ensures
            *c == self.cell_spec(x as int, y as int),
    {
        let k = self.flat_index(x, y);
        &self.inner[k]
    }

    /// Registers the eight neighbor relations of the interior cell at
    /// `(x, y)`, in a fixed order: the row below, the own row, the row
    /// above, each left to right, the cell itself skipped.  On a cell that
    /// is already wired every registration is a capped-fan-out no-op.
    fn wire_cell(&mut self, x: usize, y: usize)
        requires
            old(self).dims_ok(),
            interior(old(self).w(), old(self).h(), x as int, y as int),
            old(self).cell_spec(x as int, y as int).around_cells@.len() == 0
                || is_nbr_list(
                    old(self).cell_spec(x as int, y as int).around_cells@,
                    old(self).w(),
                    x as int,
                    y as int,
                ),
        ensures
            final(self).width == old(self).width,
            final(self).height == old(self).height,
            final(self).inner@.len() == old(self).inner@.len(),
            is_nbr_list(
                final(self).cell_spec(x as int, y as int).around_cells@,
                old(self).w(),
                x as int,
                y as int,
            ),
            forall|i: int|
                0 <= i < final(self).inner@.len() && i != flat(old(self).w(), x as int, y as int)
                    ==> final(self).inner@[i] == old(self).inner@[i],
            final(self).cell_spec(x as int, y as int).survive
                == old(self).cell_spec(x as int, y as int).survive,
            final(self).cell_spec(x as int, y as int).around_survivers_count
                == old(self).cell_spec(x as int, y as int).around_survivers_count,
            final(self).cell_spec(x as int, y as int).pt
                == old(self).cell_spec(x as int, y as int).pt,
    {
        let k = self.flat_index(x, y);
        let j0 = self.flat_index(x - 1, y + 1);
        let j1 = self.flat_index(x, y + 1);
        let j2 = self.flat_index(x + 1, y + 1);
        let j3 = self.flat_index(x - 1, y);
        let j4 = self.flat_index(x + 1, y);
        let j5 = self.flat_index(x - 1, y - 1);
        let j6 = self.flat_index(x, y - 1);
        let j7 = self.flat_index(x + 1, y - 1);
        let ghost s0 = self.inner@[k as int].around_cells@;
        let c = &mut self.inner[k];
        c.set_arround_cells(j0);
        c.set_arround_cells(j1);
        c.set_arround_cells(j2);
        c.set_arround_cells(j3);
        c.set_arround_cells(j4);
        c.set_arround_cells(j5);
        c.set_arround_cells(j6);
        c.set_arround_cells(j7);
        proof {
            let w = old(self).w();
            let s = self.cell_spec(x as int, y as int).around_cells@;
            if s0.len() == 0 {
                assert(s =~= seq![j0, j1, j2, j3, j4, j5, j6, j7]);
            } else {
                assert(s == s0);
            }
            assert forall|t: int| 0 <= t < 8 implies #[trigger] (s[t] as int)
                == nbr_list(w, x as int, y as int)[t] by {
            }
        }
    }

    /// Wires the neighbor relations of every interior cell.  Meant to run
    /// exactly once, after allocation and before any mutation; a second
    /// run is tolerated and changes nothing, because registration on a
    /// full neighbor set is a no-op.
    pub fn set_ref(&mut self)
        requires
            old(self).wirable(),
        ensures
            final(self).wf(),
            final(self).width == old(self).width,
            final(self).height == old(self).height,
            final(self).inner@.len() == old(self).inner@.len(),
            forall|i: int|
                #![trigger final(self).inner@[i]]
                0 <= i < final(self).inner@.len()
                    ==> final(self).inner@[i].survive == old(self).inner@[i].survive
                        && final(self).inner@[i].around_survivers_count
                            == old(self).inner@[i].around_survivers_count
                        && final(self).inner@[i].pt == old(self).inner@[i].pt,
            final(self).grid() == old(self).grid(),
    {
        let w = self.width;
        let h = self.height;
        let ghost wi = old(self).w();
        let ghost hi = old(self).h();
        let mut y: usize = 1;
        while y < h - 1
            invariant
                self.width == w,
                self.height == h,
                wi == w as int,
                hi == h as int,
                h >= 2,
                1 <= y <= hi - 1 || hi == 2,
                1 <= y,
                self.dims_ok(),
                self.inner@.len() == old(self).inner@.len(),
                forall|i: int|
                    #![trigger self.inner@[i]]
                    0 <= i < self.inner@.len()
                        ==> self.inner@[i].survive == old(self).inner@[i].survive
                            && self.inner@[i].around_survivers_count
                                == old(self).inner@[i].around_survivers_count
                            && self.inner@[i].pt == old(self).inner@[i].pt,
                forall|u: int, v: int|
                    #![trigger self.cell_spec(u, v)]
                    in_grid(wi, hi, u, v) && !interior(wi, hi, u, v)
                        ==> self.cell_spec(u, v).around_cells@.len() == 0,
                forall|u: int, v: int|
                    #![trigger self.cell_spec(u, v)]
                    interior(wi, hi, u, v) && v < y
                        ==> is_nbr_list(self.cell_spec(u, v).around_cells@, wi, u, v),
                forall|u: int, v: int|
                    #![trigger self.cell_spec(u, v)]
                    interior(wi, hi, u, v) && v >= y
                        ==> self.cell_spec(u, v).around_cells@.len() == 0
                            || is_nbr_list(self.cell_spec(u, v).around_cells@, wi, u, v),
            decreases hi - y,
        {
            let mut x: usize = 1;
            while x < w - 1
                invariant
                    self.width == w,
                    self.height == h,
                    wi == w as int,
                    hi == h as int,
                    1 <= y < hi - 1,
                    1 <= x <= wi - 1 || wi == 2,
                    1 <= x,
                    self.dims_ok(),
                    self.inner@.len() == old(self).inner@.len(),
                    forall|i: int|
                        #![trigger self.inner@[i]]
                        0 <= i < self.inner@.len()
                            ==> self.inner@[i].survive == old(self).inner@[i].survive
                                && self.inner@[i].around_survivers_count
                                    == old(self).inner@[i].around_survivers_count
                                && self.inner@[i].pt == old(self).inner@[i].pt,
                    forall|u: int, v: int|
                        #![trigger self.cell_spec(u, v)]
                        in_grid(wi, hi, u, v) && !interior(wi, hi, u, v)
                            ==> self.cell_spec(u, v).around_cells@.len() == 0,
                    forall|u: int, v: int|
                        #![trigger self.cell_spec(u, v)]
                        interior(wi, hi, u, v) && (v < y || (v == y && u < x))
                            ==> is_nbr_list(self.cell_spec(u, v).around_cells@, wi, u, v),
                    forall|u: int, v: int|
                        #![trigger self.cell_spec(u, v)]
                        interior(wi, hi, u, v) && (v > y || (v == y && u >= x))
                            ==> self.cell_spec(u, v).around_cells@.len() == 0
                                || is_nbr_list(self.cell_spec(u, v).around_cells@, wi, u, v),
                decreases wi - x,
            {
                let ghost prev = *self;
                self.wire_cell(x, y);
                proof {
                    assert forall|u: int, v: int|
                        in_grid(wi, hi, u, v) && !(u == x as int && v == y as int)
                            implies #[trigger] self.cell_spec(u, v) == prev.cell_spec(u, v) by {
                        lemma_flat_bounds(wi, hi, u, v);
                        lemma_flat_injective(wi, u, v, x as int, y as int);
                    }
                }
                x = x + 1;
            }
            y = y + 1;
        }
        proof {
            assert forall|u: int, v: int|
                #![trigger self.cell_spec(u, v)]
                interior(wi, hi, u, v) implies is_nbr_list(self.cell_spec(u, v).around_cells@, wi, u, v) by {
            }
            assert(self.grid() =~= old(self).grid());
            assert forall|u: int, v: int|
                #![trigger self.cell_spec(u, v)]
                in_grid(wi, hi, u, v) && !interior(wi, hi, u, v)
                    implies !self.cell_spec(u, v).survive by {
                lemma_flat_bounds(wi, hi, u, v);
                assert(!old(self).cell_spec(u, v).survive);
            }
            assert forall|u: int, v: int|
                #![trigger self.cell_spec(u, v)]
                in_grid(wi, hi, u, v) implies self.cell_spec(u, v).around_survivers_count
                    == live_around(self.grid(), wi, hi, u, v) by {
                lemma_flat_bounds(wi, hi, u, v);
                assert(old(self).cell_spec(u, v).around_survivers_count
                    == live_around(old(self).grid(), wi, hi, u, v));
            }
        }
    }

    /// Fans a state flip of the interior cell at `(x, y)` out to its
    /// eight registered neighbors — each receives a +1 delta when the cell
    /// comes alive and a -1 delta when it dies — and then records the new
    /// state.  A cell never notifies itself: its own position is not among
    /// its relations.
    pub fn around_cells_notify(&mut self, x: usize, y: usize, survive: bool)
        requires
            old(self).wf(),
            interior(old(self).w(), old(self).h(), x as int, y as int),
            old(self).alive(x as int, y as int) != survive,
        ensures
            final(self).wf(),
            old(self).same_shape(*final(self)),
            final(self).grid()
                == old(self).grid().update(flat(old(self).w(), x as int, y as int), survive),
    {
        let ghost w = old(self).w();
        let ghost h = old(self).h();
        let ghost g0 = old(self).grid();
        let ghost xi = x as int;
        let ghost yi = y as int;
        let k = self.flat_index(x, y);
        let ghost kk = flat(w, xi, yi);
        proof {
            lemma_offsets();
            lemma_flat_bounds(w, h, xi, yi);
        }
        let mut t: usize = 0;
        while t < 8
            invariant
                self.width == old(self).width,
                self.height == old(self).height,
                w == self.w(),
                h == self.h(),
                self.dims_ok(),
                self.inner@.len() == old(self).inner@.len(),
                old(self).wf(),
                interior(w, h, xi, yi),
                old(self).alive(xi, yi) != survive,
                g0 == old(self).grid(),
                xi == x as int,
                yi == y as int,
                kk == flat(w, xi, yi),
                k == kk,
                0 <= kk < self.inner@.len(),
                t <= 8,
                forall|i: int|
                    #![trigger self.inner@[i]]
                    0 <= i < self.inner@.len()
                        ==> self.inner@[i].survive == old(self).inner@[i].survive
                            && self.inner@[i].around_cells@ == old(self).inner@[i].around_cells@
                            && self.inner@[i].pt == old(self).inner@[i].pt,
                forall|u: int, v: int|
                    #![trigger self.cell_spec(u, v)]
                    in_grid(w, h, u, v)
                        ==> self.cell_spec(u, v).around_survivers_count
                            == old(self).cell_spec(u, v).around_survivers_count
                                + (if bumped(xi, yi, t as int, u, v) {
                                    if survive { 1int } else { -1int }
                                } else {
                                    0int
                                }),
            decreases 8 - t,
        {
            let ghost ti = t as int;
            let ghost ut = xi + nbr_dx(ti);
            let ghost vt = yi + nbr_dy(ti);
            proof {
                lemma_offsets();
                assert(is_nbr_list(old(self).cell_spec(xi, yi).around_cells@, w, xi, yi));
                assert(self.cell_spec(xi, yi) == self.inner@[kk]);
                assert(self.inner@[kk].around_cells@ == old(self).inner@[kk].around_cells@);
                assert((old(self).cell_spec(xi, yi).around_cells@[ti] as int)
                    == nbr_list(w, xi, yi)[ti]);
                assert(in_grid(w, h, ut, vt));
                lemma_flat_bounds(w, h, ut, vt);
            }
            let j = self.inner[k].around_cells[t];
            proof {
                assert(j as int == flat(w, ut, vt));
                lemma_not_bumped_yet(xi, yi, ti);
                assert(self.cell_spec(ut, vt) == self.inner@[j as int]);
                assert(self.cell_spec(ut, vt).around_survivers_count
                    == old(self).cell_spec(ut, vt).around_survivers_count);
                assert(old(self).cell_spec(ut, vt).around_survivers_count
                    == live_around(g0, w, h, ut, vt));
                assert(adjacent(xi, yi, ut, vt));
                assert(alive_at(g0, w, h, xi, yi) == old(self).cell_spec(xi, yi).survive);
                if survive {
                    lemma_live_around_below_full(g0, w, h, ut, vt, xi, yi);
                } else {
                    lemma_live_around_above_zero(g0, w, h, ut, vt, xi, yi);
                }
            }
            let ghost snap = *self;
            let c = &mut self.inner[j];
            if survive {
                c.notify_born();
            } else {
                c.notify_kill();
            }
            proof {
                assert(self.inner@ == snap.inner@.update(j as int, self.inner@[j as int]));
                assert forall|u: int, v: int|
                    #![trigger self.cell_spec(u, v)]
                    in_grid(w, h, u, v) implies self.cell_spec(u, v).around_survivers_count
                        == old(self).cell_spec(u, v).around_survivers_count
                            + (if bumped(xi, yi, ti + 1, u, v) {
                                if survive { 1int } else { -1int }
                            } else {
                                0int
                            }) by {
                    lemma_flat_bounds(w, h, u, v);
                    lemma_flat_injective(w, u, v, ut, vt);
                    lemma_bumped_step(xi, yi, ti, u, v);
                    assert(snap.cell_spec(u, v).around_survivers_count
                        == old(self).cell_spec(u, v).around_survivers_count
                            + (if bumped(xi, yi, ti, u, v) {
                                if survive { 1int } else { -1int }
                            } else {
                                0int
                            }));
                    if u == ut && v == vt {
                        assert(self.cell_spec(u, v) == self.inner@[j as int]);
                    } else {
                        assert(flat(w, u, v) != j as int);
                        assert(self.cell_spec(u, v) == snap.cell_spec(u, v));
                    }
                }
                assert forall|i: int|
                    #![trigger self.inner@[i]]
                    0 <= i < self.inner@.len()
                        implies self.inner@[i].survive == old(self).inner@[i].survive
                            && self.inner@[i].around_cells@ == old(self).inner@[i].around_cells@
                            && self.inner@[i].pt == old(self).inner@[i].pt by {
                    assert(snap.inner@[i].survive == old(self).inner@[i].survive
                        && snap.inner@[i].around_cells@ == old(self).inner@[i].around_cells@
                        && snap.inner@[i].pt == old(self).inner@[i].pt);
                }
            }
            t = t + 1;
        }
        let ghost snap2 = *self;
        let c = &mut self.inner[k];
        c.survive = survive;
        proof {
            let g1 = g0.update(kk, survive);
            assert(self.inner@ == snap2.inner@.update(kk as int, self.inner@[kk as int]));
            assert(self.grid() =~= g1);
            assert forall|u: int, v: int|
                #![trigger self.cell_spec(u, v)]
                in_grid(w, h, u, v) implies self.cell_spec(u, v).around_survivers_count
                    == live_around(self.grid(), w, h, u, v) by {
                lemma_flat_bounds(w, h, u, v);
                lemma_flat_injective(w, u, v, xi, yi);
                lemma_bumped_full(xi, yi, u, v);
                lemma_live_around_update(g0, w, h, xi, yi, survive, u, v);
                assert(g0[kk] == old(self).cell_spec(xi, yi).survive);
                assert(snap2.cell_spec(u, v).around_survivers_count
                    == old(self).cell_spec(u, v).around_survivers_count
                        + (if bumped(xi, yi, 8, u, v) {
                            if survive { 1int } else { -1int }
                        } else {
                            0int
                        }));
                assert(self.cell_spec(u, v).around_survivers_count
                    == snap2.cell_spec(u, v).around_survivers_count);
                assert(old(self).cell_spec(u, v).around_survivers_count
                    == live_around(g0, w, h, u, v));
            }
            assert forall|u: int, v: int|
                #![trigger self.cell_spec(u, v)]
                in_grid(w, h, u, v) && !(u == xi && v == yi)
                    implies self.cell_spec(u, v).survive == old(self).cell_spec(u, v).survive
                        && self.cell_spec(u, v).around_cells@
                            == old(self).cell_spec(u, v).around_cells@ by {
                lemma_flat_bounds(w, h, u, v);
                lemma_flat_injective(w, u, v, xi, yi);
                assert(snap2.cell_spec(u, v).survive == old(self).cell_spec(u, v).survive);
                assert(snap2.cell_spec(u, v).around_cells@
                    == old(self).cell_spec(u, v).around_cells@);
            }
            assert(snap2.cell_spec(xi, yi).around_cells@
                == old(self).cell_spec(xi, yi).around_cells@);
            assert(self.cell_spec(xi, yi).around_cells@
                == old(self).cell_spec(xi, yi).around_cells@);
            assert forall|i: int|
                #![trigger final(self).inner@[i]]
                0 <= i < self.inner@.len()
                    implies self.inner@[i].around_cells@ == old(self).inner@[i].around_cells@
                        && self.inner@[i].pt == old(self).inner@[i].pt by {
                assert(snap2.inner@[i].around_cells@ == old(self).inner@[i].around_cells@
                    && snap2.inner@[i].pt == old(self).inner@[i].pt);
            }
        }
    }

    /// Brings the interior cell at `(x, y)` alive.  A no-op on a cell that
    /// is already alive, and then the whole board is left untouched; on a
    /// dead cell each of the eight neighbors' cached counts rises by one.
    /// This is the only mutation path that brings a cell to life.
    pub fn born(&mut self, x: usize, y: usize)
        requires
            old(self).wf(),
            interior(old(self).w(), old(self).h(), x as int, y as int),
        ensures
            final(self).wf(),
            old(self).same_shape(*final(self)),
            final(self).grid()
                == old(self).grid().update(flat(old(self).w(), x as int, y as int), true),
            old(self).alive(x as int, y as int) ==> *final(self) == *old(self),
    {
        let k = self.flat_index(x, y);
        if self.inner[k].get_survive() {
            proof {
                assert(self.grid()[k as int] == self.cell_spec(x as int, y as int).survive);
                assert(self.grid() =~= self.grid().update(k as int, true));
            }
            return;
        }
        self.around_cells_notify(x, y, true);
    }

    /// Kills the interior cell at `(x, y)`.  A no-op on a cell that is
    /// already dead, and then the whole board is left untouched; on a live
    /// cell each of the eight neighbors' cached counts drops by one.
    pub fn kill(&mut self, x: usize, y: usize)
        requires
            old(self).wf(),
            interior(old(self).w(), old(self).h(), x as int, y as int),
        ensures
            final(self).wf(),
            old(self).same_shape(*final(self)),
            final(self).grid()
                == old(self).grid().update(flat(old(self).w(), x as int, y as int), false),
            !old(self).alive(x as int, y as int) ==> *final(self) == *old(self),
    {
        let k = self.flat_index(x, y);
        if !self.inner[k].get_survive() {
            proof {
                assert(self.grid()[k as int] == self.cell_spec(x as int, y as int).survive);
                assert(self.grid() =~= self.grid().update(k as int, false));
            }
            return;
        }
        self.around_cells_notify(x, y, false);
    }

    /// Sets the cell at the logical coordinate `(x, y)` — 0-based,
    /// border excluded — alive or dead.  A coordinate on or beyond the
    /// logical extent is silently ignored: with the sentinel layout every
    /// in-range logical coordinate lands on an interior cell, so this is a
    /// clamp policy, not an error.
    pub fn set_boardstate(&mut self, x: usize, y: usize, state_alive: bool)
        requires
            old(self).wf(),
        ensures
            final(self).wf(),
            old(self).same_shape(*final(self)),
            (x as int) < old(self).w() - 2 && (y as int) < old(self).h() - 2
                ==> final(self).grid()
                    == old(self).grid().update(
                        flat(old(self).w(), x as int + 1, y as int + 1),
                        state_alive,
                    ),
            !((x as int) < old(self).w() - 2 && (y as int) < old(self).h() - 2)
                ==> *final(self) == *old(self),
    {
        if x >= self.width - 2 || y >= self.height - 2 {
            return;
        }
        let px = x + 1;
        let py = y + 1;
        if state_alive {
            self.born(px, py);
        } else {
            self.kill(px, py);
        }
    }

    /// Applies the birth/death rule to every interior cell, in row-major
    /// scan order.  Each visit reads the cell's cached count at that
    /// moment and calls `kill` or `born`; the deltas those fan out are
    /// seen by the cells visited later in the same pass, so the pass is a
    /// sequential sweep (`next_gen`), not a simultaneous update.  Border
    /// cells are never visited.
    pub fn refresh(&mut self)
        requires
            old(self).wf(),
        ensures
            final(self).wf(),
            old(self).same_shape(*final(self)),
            final(self).grid() == next_gen(old(self).grid(), old(self).w(), old(self).h()),
    {
        let ghost w = old(self).w();
        let ghost h = old(self).h();
        let ghost g0 = old(self).grid();
        let wid = self.width;
        let hgt = self.height;
        let mut y: usize = 1;
        while y < hgt - 1
            invariant
                self.wf(),
                self.width == wid,
                self.height == hgt,
                w == self.w(),
                h == self.h(),
                old(self).wf(),
                g0 == old(self).grid(),
                old(self).same_shape(*self),
                1 <= y as int, (y as int) <= h - 1,
                self.grid() == sweep(g0, w, h, y as int),
            decreases h - y,
        {
            let mut x: usize = 1;
            while x < wid - 1
                invariant
                    self.wf(),
                    self.width == wid,
                    self.height == hgt,
                    w == self.w(),
                    h == self.h(),
                    old(self).wf(),
                    g0 == old(self).grid(),
                    old(self).same_shape(*self),
                    1 <= y as int, (y as int) < h - 1,
                    1 <= x as int, (x as int) <= w - 1,
                    self.grid() == sweep_row(sweep(g0, w, h, y as int), w, h, y as int, x as int),
                decreases w - x,
            {
                let ghost gcur = self.grid();
                let ghost xi = x as int;
                let ghost yi = y as int;
                let ghost kk = flat(w, xi, yi);
                proof {
                    lemma_flat_bounds(w, h, xi, yi);
                    assert(self.cell_spec(xi, yi).around_survivers_count
                        == live_around(gcur, w, h, xi, yi));
                    lemma_live_around_range(gcur, w, h, xi, yi);
                    assert(gcur[kk] == self.cell_spec(xi, yi).survive);
                }
                let n = self.cell_at(x, y).get_around_survivers_count();
                match n {
                    4..=8 | 0..=1 => {
                        self.kill(x, y);
                    },
                    3 => {
                        self.born(x, y);
                    },
                    2 => {
                        proof {
                            assert(self.grid() =~= gcur.update(kk, rule_next(gcur[kk], 2)));
                        }
                    },
                    _ => {
                        proof {
                            assert(false);
                        }
                    },
                }
                proof {
                    assert(self.grid() == step_one(gcur, w, h, xi, yi));
                    assert(sweep_row(sweep(g0, w, h, yi), w, h, yi, xi + 1)
                        == step_one(sweep_row(sweep(g0, w, h, yi), w, h, yi, xi), w, h, xi, yi));
                }
                x = x + 1;
            }
            proof {
                assert(sweep(g0, w, h, y as int + 1)
                    == sweep_row(sweep(g0, w, h, y as int), w, h, y as int, w - 1));
            }
            y = y + 1;
        }
    }

    /// Allocation and wiring, chained: returns the board ready for
    /// mutation.
    pub fn init(self) -> (b: Board)
        requires
            self.wirable(),
        ensures
            b.wf(),
            b.width == self.width,
            b.height == self.height,
            b.inner@.len() == self.inner@.len(),
            b.grid() == self.grid(),
            forall|i: int|
                #![trigger b.inner@[i]]
                0 <= i < b.inner@.len()
                    ==> b.inner@[i].survive == self.inner@[i].survive
                        && b.inner@[i].around_survivers_count
                            == self.inner@[i].around_survivers_count
                        && b.inner@[i].pt == self.inner@[i].pt,
            forall|x: int, y: int|
                #![trigger b.cell_spec(x, y)]
                in_grid(b.w(), b.h(), x, y)
                    ==> b.cell_spec(x, y).pt == self.cell_spec(x, y).pt,
    {
        let mut b = self;
        b.set_ref();
        proof {
            assert forall|x: int, y: int|
                #![trigger b.cell_spec(x, y)]
                in_grid(b.w(), b.h(), x, y) implies b.cell_spec(x, y).pt
                    == self.cell_spec(x, y).pt by {
                lemma_flat_bounds(b.w(), b.h(), x, y);
            }
        }
        b
    }
}

/// Two boards with equal dimensions whose cells agree field by field have
/// the same grid, and well-formedness carries over from one to the other.
pub proof fn lemma_state_transfer(a: Board, b: Board)
    requires
        b.width == a.width,
        b.height == a.height,
        b.inner@.len() == a.inner@.len(),
        forall|i: int|
            #![trigger b.inner@[i]]
            0 <= i < b.inner@.len()
                ==> b.inner@[i].survive == a.inner@[i].survive
                    && b.inner@[i].around_survivers_count == a.inner@[i].around_survivers_count
                    && b.inner@[i].around_cells@ == a.inner@[i].around_cells@,
    ensures
        b.grid() == a.grid(),
        a.wf() ==> b.wf(),
        a.wirable() ==> b.wirable(),
{
    assert(b.grid() =~= a.grid());
    if a.dims_ok() {
        assert forall|x: int, y: int|
            #![trigger b.cell_spec(x, y)]
            in_grid(b.w(), b.h(), x, y) implies b.cell_spec(x, y).survive
                == a.cell_spec(x, y).survive
                && b.cell_spec(x, y).around_survivers_count
                    == a.cell_spec(x, y).around_survivers_count
                && b.cell_spec(x, y).around_cells@ == a.cell_spec(x, y).around_cells@ by {
            lemma_flat_bounds(b.w(), b.h(), x, y);
        }
    }
}

impl Clone for Board {
    /// A clone has the same dimensions and copies every cell's state.
    /// Relations are indices into the clone's own arena, so the clone
    /// shares no cell with the source: mutating either board can never
    /// change the other's states or counts.
    fn clone(&self) -> (r: Board)
        ensures
            r.width == self.width,
            r.height == self.height,
            r.inner@.len() == self.inner@.len(),
            forall|i: int|
                #![trigger r.inner@[i]]
                0 <= i < r.inner@.len()
                    ==> r.inner@[i].survive == self.inner@[i].survive
                        && r.inner@[i].around_survivers_count
                            == self.inner@[i].around_survivers_count
                        && r.inner@[i].around_cells@ == self.inner@[i].around_cells@
                        && r.inner@[i].pt == self.inner@[i].pt,
            r.grid() == self.grid(),
            self.wf() ==> r.wf(),
            self.wirable() ==> r.wirable(),
    {
        let mut cells: Vec<Cell> = Vec::new();
        let mut i: usize = 0;
        while i < self.inner.len()
            invariant
                i <= self.inner@.len(),
                cells@.len() == i,
                forall|j: int|
                    #![trigger cells@[j]]
                    0 <= j < i as int
                        ==> cells@[j].survive == self.inner@[j].survive
                            && cells@[j].around_survivers_count
                                == self.inner@[j].around_survivers_count
                            && cells@[j].around_cells@ == self.inner@[j].around_cells@
                            && cells@[j].pt == self.inner@[j].pt,
            decreases self.inner@.len() - i,
        {
            let c = self.inner[i].clone();
            cells.push(c);
            i = i + 1;
        }
        let r = Board { inner: cells, width: self.width, height: self.height };
        proof {
            lemma_state_transfer(*self, r);
        }
        r
    }
}

impl PartialEq for Board {
    /// Boards are equal when their dimensions match and every cell pair,
    /// by flat index, has the same alive state; cached counts and
    /// relations are not compared.
    fn eq(&self, rhs: &Board) -> bool {
        if !(self.width == rhs.width && self.height == rhs.height) {
            return false;
        }
        let n = if self.inner.len() < rhs.inner.len() {
            self.inner.len()
        } else {
            rhs.inner.len()
        };
        let mut i: usize = 0;
        while i < n
            invariant
                i <= n,
                n <= self.inner@.len(),
                n <= rhs.inner@.len(),
                n == self.inner@.len() || n == rhs.inner@.len(),
                forall|j: int|
                    #![trigger self.inner@[j]]
                    0 <= j < i as int ==> self.inner@[j].survive == rhs.inner@[j].survive,
            decreases n - i,
        {
            if self.inner[i].get_survive() != rhs.inner[i].get_survive() {
                return false;
            }
            i = i + 1;
        }
        true
    }
}

impl vstd::std_specs::cmp::PartialEqSpecImpl for Board {
    open spec fn obeys_eq_spec() -> bool {
        true
    }

    open spec fn eq_spec(&self, rhs: &Board) -> bool {
        &&& self.width == rhs.width
        &&& self.height == rhs.height
        &&& forall|j: int|
            #![trigger self.inner@[j]]
            0 <= j < self.inner@.len() && j < rhs.inner@.len()
                ==> self.inner@[j].survive == rhs.inner@[j].survive
    }
}

/// Law: after wiring, every interior cell holds exactly eight neighbor
/// relations and every border cell holds none.
pub proof fn lemma_relation_counts(b: Board, x: int, y: int)
    requires
        b.wf(),
        in_grid(b.w(), b.h(), x, y),
    ensures
        interior(b.w(), b.h(), x, y) ==> b.nbrs_at(x, y).len() == 8,
        !interior(b.w(), b.h(), x, y) ==> b.nbrs_at(x, y).len() == 0,
{
    let c = b.cell_spec(x, y);
    assert(b.nbrs_at(x, y) == c.around_cells@);
}

/// Law: on a well-formed board the border is dead.  Every mutating
/// operation ensures well-formedness again, so no sequence of calls —
/// `advance_generation` passes included — ever brings a border cell
/// alive.
pub proof fn lemma_border_stays_dead(b: Board, x: int, y: int)
    requires
        b.wf(),
        in_grid(b.w(), b.h(), x, y),
        !interior(b.w(), b.h(), x, y),
    ensures
        !b.alive(x, y),
        b.nbrs_at(x, y).len() == 0,
{
    let c = b.cell_spec(x, y);
    assert(b.nbrs_at(x, y) == c.around_cells@);
}

/// Law: on a well-formed board, a cell's cached neighbor count equals the
/// number of currently live cells among its registered neighbors.
pub proof fn lemma_count_is_live_neighbors(b: Board, x: int, y: int)
    requires
        b.wf(),
        interior(b.w(), b.h(), x, y),
    ensures
        b.count_at(x, y) == live_in_list(b.grid(), b.nbrs_at(x, y)),
{
    let g = b.grid();
    let w = b.w();
    let h = b.h();
    let s = b.nbrs_at(x, y);
    assert(is_nbr_list(s, w, x, y));
    lemma_offsets();
    assert forall|t: int| 0 <= t < 8 implies 0 <= (#[trigger] (s[t] as int)) < g.len()
        && g[s[t] as int] == alive_at(g, w, h, x + nbr_dx(t), y + nbr_dy(t)) by {
        assert((s[t] as int) == nbr_list(w, x, y)[t]);
        assert(in_grid(w, h, x + nbr_dx(t), y + nbr_dy(t)));
        lemma_flat_bounds(w, h, x + nbr_dx(t), y + nbr_dy(t));
    }
    let s7 = s.drop_last();
    let s6 = s7.drop_last();
    let s5 = s6.drop_last();
    let s4 = s5.drop_last();
    let s3 = s4.drop_last();
    let s2 = s3.drop_last();
    let s1 = s2.drop_last();
    let s0 = s1.drop_last();
    assert(s7 =~= s.subrange(0, 7));
    assert(s6 =~= s.subrange(0, 6));
    assert(s5 =~= s.subrange(0, 5));
    assert(s4 =~= s.subrange(0, 4));
    assert(s3 =~= s.subrange(0, 3));
    assert(s2 =~= s.subrange(0, 2));
    assert(s1 =~= s.subrange(0, 1));
    assert(s0 =~= s.subrange(0, 0));
    assert(s.last() == s[7] && s7.last() == s[6] && s6.last() == s[5] && s5.last() == s[4]
        && s4.last() == s[3] && s3.last() == s[2] && s2.last() == s[1] && s1.last() == s[0]);
    let q0 = one_if(alive_at(g, w, h, x + nbr_dx(0), y + nbr_dy(0)));
    let q1 = one_if(alive_at(g, w, h, x + nbr_dx(1), y + nbr_dy(1)));
    let q2 = one_if(alive_at(g, w, h, x + nbr_dx(2), y + nbr_dy(2)));
    let q3 = one_if(alive_at(g, w, h, x + nbr_dx(3), y + nbr_dy(3)));
    let q4 = one_if(alive_at(g, w, h, x + nbr_dx(4), y + nbr_dy(4)));
    let q5 = one_if(alive_at(g, w, h, x + nbr_dx(5), y + nbr_dy(5)));
    let q6 = one_if(alive_at(g, w, h, x + nbr_dx(6), y + nbr_dy(6)));
    let q7 = one_if(alive_at(g, w, h, x + nbr_dx(7), y + nbr_dy(7)));
    assert(0 <= (s[0] as int) < g.len() && g[s[0] as int] == alive_at(g, w, h, x + nbr_dx(0), y + nbr_dy(0)));
    assert(0 <= (s[1] as int) < g.len() && g[s[1] as int] == alive_at(g, w, h, x + nbr_dx(1), y + nbr_dy(1)));
    assert(0 <= (s[2] as int) < g.len() && g[s[2] as int] == alive_at(g, w, h, x + nbr_dx(2), y + nbr_dy(2)));
    assert(0 <= (s[3] as int) < g.len() && g[s[3] as int] == alive_at(g, w, h, x + nbr_dx(3), y + nbr_dy(3)));
    assert(0 <= (s[4] as int) < g.len() && g[s[4] as int] == alive_at(g, w, h, x + nbr_dx(4), y + nbr_dy(4)));
    assert(0 <= (s[5] as int) < g.len() && g[s[5] as int] == alive_at(g, w, h, x + nbr_dx(5), y + nbr_dy(5)));
    assert(0 <= (s[6] as int) < g.len() && g[s[6] as int] == alive_at(g, w, h, x + nbr_dx(6), y + nbr_dy(6)));
    assert(0 <= (s[7] as int) < g.len() && g[s[7] as int] == alive_at(g, w, h, x + nbr_dx(7), y + nbr_dy(7)));
    assert(live_in_list(g, s0) == 0);
    assert(live_in_list(g, s1) == q0);
    assert(live_in_list(g, s2) == q0 + q1);
    assert(live_in_list(g, s3) == q0 + q1 + q2);
    assert(live_in_list(g, s4) == q0 + q1 + q2 + q3);
    assert(live_in_list(g, s5) == q0 + q1 + q2 + q3 + q4);
    assert(live_in_list(g, s6) == q0 + q1 + q2 + q3 + q4 + q5);
    assert(live_in_list(g, s7) == q0 + q1 + q2 + q3 + q4 + q5 + q6);
    assert(live_in_list(g, s) == q0 + q1 + q2 + q3 + q4 + q5 + q6 + q7);
    assert(live_around(g, w, h, x, y) == q0 + q1 + q2 + q3 + q4 + q5 + q6 + q7);
    assert(b.count_at(x, y) == live_around(g, w, h, x, y));
}

} // verus!
