//! The fog field: a rectangular grid of tiles, each holding a shadow
//! opacity (in thousandths) and an "explored" flag, refreshed from the
//! observer's position by two distinct paths.
//!
//! * The per-frame path runs every render tick: within range it merges the
//!   falloff value with an explored tile's retained opacity by minimum (a
//!   "brightest ever seen while visible" memory).
//! * The post-move path runs once per accepted movement command: within
//!   range it overwrites an explored tile's opacity with the falloff value.
//!
//! Both paths agree out of range: an explored tile keeps its opacity exactly
//! and only drops its currently-visible flag; a never-explored tile is left
//! alone. The two merge rules are deliberately kept as two named procedures
//! sharing one falloff helper — collapsing them would change the dimming
//! behaviour.

use vstd::prelude::*;
use crate::falloff::{
    OPACITY_SCALE, MIN_FOG_OPACITY, MAX_VISIBILITY_RANGE, RANGE_SQUARED, alpha_spec, alpha_milli,
    lemma_alpha_bounds,
};

verus! {

/// One tile of the fog layer.
#[derive(Clone, Copy, PartialEq, Eq, Structural)]
pub struct FogCell {
    /// Shadow opacity in thousandths; full opacity (1000) means unseen.
    pub opacity: u32,
    /// True while the tile is within visibility range of the observer;
    /// dropped when the observer leaves range, though the retained opacity
    /// keeps the tile's discovered appearance.
    pub explored: bool,
}

/// Bounds invariant on a single tile: the opacity never leaves
/// `[MIN_FOG_OPACITY, OPACITY_SCALE]`.
pub open spec fn cell_inv(c: FogCell) -> bool {
    MIN_FOG_OPACITY <= c.opacity <= OPACITY_SCALE
}

/// Squared Euclidean distance between two tiles.
pub open spec fn sq_dist(x1: int, y1: int, x2: int, y2: int) -> int {
    (x1 - x2) * (x1 - x2) + (y1 - y2) * (y1 - y2)
}

/// The smaller of two opacities.
pub open spec fn merge_min(o: int, a: int) -> int {
    if o <= a {
        o
    } else {
        a
    }
}

/// One tile under the per-frame refresh, at squared distance `q` from the
/// observer: within range the new opacity is the falloff value, merged by
/// minimum with the retained opacity of an explored tile, and the tile is
/// marked explored; out of range an explored tile keeps its opacity and
/// only drops the flag.
pub open spec fn frame_step(c: FogCell, q: int) -> FogCell {
    if q <= RANGE_SQUARED {
        FogCell {
            opacity: (if c.explored {
                merge_min(c.opacity as int, alpha_spec(q))
            } else {
                alpha_spec(q)
            }) as u32,
            explored: true,
        }
    } else if c.explored {
        FogCell { opacity: c.opacity, explored: false }
    } else {
        c
    }
}

/// One tile under the post-move refresh: as `frame_step`, except that within
/// range the falloff value overwrites the retained opacity unconditionally.
pub open spec fn move_step(c: FogCell, q: int) -> FogCell {
    if q <= RANGE_SQUARED {
        FogCell { opacity: alpha_spec(q) as u32, explored: true }
    } else if c.explored {
        FogCell { opacity: c.opacity, explored: false }
    } else {
        c
    }
}

/// Either step keeps the bounds invariant.
pub proof fn lemma_step_inv(c: FogCell, q: int)
    requires
        cell_inv(c),
        0 <= q,
    ensures
        cell_inv(frame_step(c, q)),
        cell_inv(move_step(c, q)),
{
    if q <= RANGE_SQUARED {
        lemma_alpha_bounds(q);
    }
}

/// A squared distance is never negative.
pub proof fn lemma_sq_dist_nonneg(x1: int, y1: int, x2: int, y2: int)
    ensures
        0 <= sq_dist(x1, y1, x2, y2),
{
    assert(0 <= (x1 - x2) * (x1 - x2)) by (nonlinear_arith);
    assert(0 <= (y1 - y2) * (y1 - y2)) by (nonlinear_arith);
}

/// Monotonic discovery law: no refresh on either path resets a tile's
/// retained opacity. Out of range the opacity is kept exactly (an explored
/// tile only drops its currently-visible flag, and a never-explored tile is
/// untouched by the in-range branch); after either step the explored flag
/// holds exactly when the tile is currently in range; and under the
/// per-frame path an explored tile's opacity never increases.
pub proof fn lemma_monotonic_discovery(c: FogCell, q: int)
    requires
        cell_inv(c),
        0 <= q,
    ensures
        q > RANGE_SQUARED ==> frame_step(c, q).opacity == c.opacity
            && move_step(c, q).opacity == c.opacity,
        q > RANGE_SQUARED && !c.explored ==> frame_step(c, q) == c && move_step(c, q) == c,
        frame_step(c, q).explored <==> q <= RANGE_SQUARED,
        move_step(c, q).explored <==> q <= RANGE_SQUARED,
        q <= RANGE_SQUARED && c.explored ==> frame_step(c, q).opacity <= c.opacity,
    {
    if q <= RANGE_SQUARED {
        lemma_alpha_bounds(q);
    }
}

/// Bounds invariant law: in a well-formed field every tile's opacity lies
/// between the opacity floor and full opacity. Every constructor and both
/// refresh paths establish or preserve well-formedness, so this holds of
/// every tile at all times.
pub proof fn lemma_bounds_invariant(f: FogField, x: int, y: int)
    requires
        f.wf(),
        f.in_grid(x, y),
    ensures
        MIN_FOG_OPACITY <= f.cell(x, y).opacity <= OPACITY_SCALE,
{
}

/// Merge policy law: on an explored tile within range, the per-frame path
/// keeps the minimum of the retained opacity and the falloff value, while
/// the post-move path overwrites with the falloff value.
pub proof fn lemma_merge_policy(c: FogCell, q: int)
    requires
        cell_inv(c),
        c.explored,
        0 <= q <= RANGE_SQUARED,
    ensures
        frame_step(c, q).opacity == merge_min(c.opacity as int, alpha_spec(q)),
        move_step(c, q).opacity == alpha_spec(q),
{
    lemma_alpha_bounds(q);
}

/// The fog layer: one `FogCell` per tile of a `width` by `height` grid,
/// stored row by row (tile `(x, y)` at index `y * width + x`).
pub struct FogField {
    pub width: usize,
    pub height: usize,
    pub cells: Vec<FogCell>,
}

impl FogField {
    /// Tile `(x, y)` as seen by specifications.
    pub open spec fn cell(self, x: int, y: int) -> FogCell {
        self.cells@[y * self.width + x]
    }

    /// Whether `(x, y)` lies on the grid.
    pub open spec fn in_grid(self, x: int, y: int) -> bool {
        0 <= x < self.width && 0 <= y < self.height
    }

    /// Well-formed field: positive dimensions, one cell per tile, and the
    /// bounds invariant on every tile.
    pub open spec fn wf(self) -> bool {
        &&& 0 < self.width
        &&& 0 < self.height
        &&& self.width * self.height <= usize::MAX
        &&& self.cells@.len() == self.width * self.height
        &&& forall|x: int, y: int| self.in_grid(x, y) ==> cell_inv(#[trigger] self.cell(x, y))
    }

    /// A fresh field of the given dimensions, fully fogged: every tile at
    /// full opacity and unexplored. Construction is refused (`None`) exactly
    /// when a dimension is zero or the cell count overflows `usize`.
    pub fn new(width: usize, height: usize) -> (r: Option<FogField>)
        ensures
            r is Some <==> 0 < width && 0 < height && width * height <= usize::MAX,
            r matches Some(f) ==> {
                &&& f.wf()
                &&& f.width == width
                &&& f.height == height
                &&& forall|x: int, y: int| f.in_grid(x, y) ==> #[trigger] f.cell(x, y)
                    == (FogCell { opacity: OPACITY_SCALE, explored: false })
            },
    {
        if width == 0 || height == 0 {
            return None;
        }
        let total = match width.checked_mul(height) {
            Some(t) => t,
            None => {
                return None;
            },
        };
        let mut cells: Vec<FogCell> = Vec::new();
        let mut i: usize = 0;
        while i < total
            invariant
                i <= total,
                cells@.len() == i,
                forall|j: int| 0 <= j < i ==> cells@[j]
                    == (FogCell { opacity: OPACITY_SCALE, explored: false }),
            decreases total - i,
        {
            cells.push(FogCell { opacity: OPACITY_SCALE, explored: false });
            i = i + 1;
        }
        let f = FogField { width, height, cells };
        proof {
            assert forall|x: int, y: int| f.in_grid(x, y) implies #[trigger] f.cell(x, y)
                == (FogCell { opacity: OPACITY_SCALE, explored: false }) by {
                lemma_grid_index_bounds(width as int, height as int, x, y);
            }
        }
        Some(f)
    }

    /// The shadow opacity of tile `(x, y)`, in thousandths.
    pub fn opacity(&self, x: usize, y: usize) -> (r: u32)
        requires
            self.wf(),
            self.in_grid(x as int, y as int),
        ensures
            r == self.cell(x as int, y as int).opacity,
    {
        proof {
            lemma_grid_index_bounds(self.width as int, self.height as int, x as int, y as int);
        }
        self.cells[y * self.width + x].opacity
    }

    /// Whether tile `(x, y)` is currently marked explored (within range as
    /// of the last refresh).
    pub fn explored(&self, x: usize, y: usize) -> (r: bool)
        requires
            self.wf(),
            self.in_grid(x as int, y as int),
        ensures
            r == self.cell(x as int, y as int).explored,
    {
        proof {
            lemma_grid_index_bounds(self.width as int, self.height as int, x as int, y as int);
        }
        self.cells[y * self.width + x].explored
    }

    /// Per-frame (continuous) refresh from the observer at `(ox, oy)`:
    /// every tile moves to `frame_step` of its old value and its squared
    /// distance to the observer.
    pub fn refresh_frame(&mut self, ox: usize, oy: usize)
        requires
            old(self).wf(),
            old(self).in_grid(ox as int, oy as int),
        ensures
            final(self).wf(),
            final(self).width == old(self).width,
            final(self).height == old(self).height,
            forall|x: int, y: int| old(self).in_grid(x, y) ==> #[trigger] final(self).cell(x, y)
                == frame_step(old(self).cell(x, y), sq_dist(x, y, ox as int, oy as int)),
    {
        let ghost orig = *self;
        let w = self.width;
        let h = self.height;
        let mut y: usize = 0;
        while y < h
            invariant
                orig.wf(),
                self.width == orig.width,
                self.height == orig.height,
                w == orig.width,
                h == orig.height,
                ox < w,
                oy < h,
                self.cells@.len() == orig.cells@.len(),
                y <= h,
                forall|a: int, b: int| orig.in_grid(a, b) && b < y ==> #[trigger] self.cell(a, b)
                    == frame_step(orig.cell(a, b), sq_dist(a, b, ox as int, oy as int)),
                forall|a: int, b: int| orig.in_grid(a, b) && b >= y ==> #[trigger] self.cell(a, b)
                    == orig.cell(a, b),
            decreases h - y,
        {
            let mut x: usize = 0;
            while x < w
                invariant
                    orig.wf(),
                    self.width == orig.width,
                    self.height == orig.height,
                    w == orig.width,
                    h == orig.height,
                    ox < w,
                    oy < h,
                    self.cells@.len() == orig.cells@.len(),
                    y < h,
                    x <= w,
                    forall|a: int, b: int| orig.in_grid(a, b) && (b < y || (b == y && a < x))
                        ==> #[trigger] self.cell(a, b)
                        == frame_step(orig.cell(a, b), sq_dist(a, b, ox as int, oy as int)),
                    forall|a: int, b: int| orig.in_grid(a, b) && (b > y || (b == y && a >= x))
                        ==> #[trigger] self.cell(a, b) == orig.cell(a, b),
                decreases w - x,
            {
                proof {
                    lemma_grid_index_bounds(w as int, h as int, x as int, y as int);
                }
                let i = y * w + x;
                proof {
                    assert(self.cell(x as int, y as int) == orig.cell(x as int, y as int));
                    assert(cell_inv(orig.cell(x as int, y as int)));
                }
                let c = self.cells[i];
                let nc = frame_step_cell(c, x, y, ox, oy);
                let ghost before = *self;
                self.cells.set(i, nc);
                proof {
                    assert forall|a: int, b: int| orig.in_grid(a, b)
                        && !(a == x as int && b == y as int)
                        implies #[trigger] self.cell(a, b) == before.cell(a, b) by {
                        lemma_grid_index_injective(w as int, a, b, x as int, y as int);
                        lemma_grid_index_bounds(w as int, h as int, a, b);
                        assert(self.cells@ == before.cells@.update(i as int, nc));
                    }
                    assert(self.cell(x as int, y as int) == nc);
                }
                x = x + 1;
            }
            y = y + 1;
        }
        proof {
            assert forall|a: int, b: int| orig.in_grid(a, b) implies cell_inv(
                #[trigger] self.cell(a, b),
            ) by {
                lemma_sq_dist_nonneg(a, b, ox as int, oy as int);
                lemma_step_inv(orig.cell(a, b), sq_dist(a, b, ox as int, oy as int));
            }
        }
    }

    /// Post-move (discrete) refresh from the observer at `(ox, oy)`: every
    /// tile moves to `move_step` of its old value and its squared distance
    /// to the observer.
    pub fn refresh_after_move(&mut self, ox: usize, oy: usize)
        requires
            old(self).wf(),
            old(self).in_grid(ox as int, oy as int),
        ensures
            final(self).wf(),
            final(self).width == old(self).width,
            final(self).height == old(self).height,
            forall|x: int, y: int| old(self).in_grid(x, y) ==> #[trigger] final(self).cell(x, y)
                == move_step(old(self).cell(x, y), sq_dist(x, y, ox as int, oy as int)),
    {
        let ghost orig = *self;
        let w = self.width;
        let h = self.height;
        let mut y: usize = 0;
        while y < h
            invariant
                orig.wf(),
                self.width == orig.width,
                self.height == orig.height,
                w == orig.width,
                h == orig.height,
                ox < w,
                oy < h,
                self.cells@.len() == orig.cells@.len(),
                y <= h,
                forall|a: int, b: int| orig.in_grid(a, b) && b < y ==> #[trigger] self.cell(a, b)
                    == move_step(orig.cell(a, b), sq_dist(a, b, ox as int, oy as int)),
                forall|a: int, b: int| orig.in_grid(a, b) && b >= y ==> #[trigger] self.cell(a, b)
                    == orig.cell(a, b),
            decreases h - y,
        {
            let mut x: usize = 0;
            while x < w
                invariant
                    orig.wf(),
                    self.width == orig.width,
                    self.height == orig.height,
                    w == orig.width,
                    h == orig.height,
                    ox < w,
                    oy < h,
                    self.cells@.len() == orig.cells@.len(),
                    y < h,
                    x <= w,
                    forall|a: int, b: int| orig.in_grid(a, b) && (b < y || (b == y && a < x))
                        ==> #[trigger] self.cell(a, b)
                        == move_step(orig.cell(a, b), sq_dist(a, b, ox as int, oy as int)),
                    forall|a: int, b: int| orig.in_grid(a, b) && (b > y || (b == y && a >= x))
                        ==> #[trigger] self.cell(a, b) == orig.cell(a, b),
                decreases w - x,
            {
                proof {
                    lemma_grid_index_bounds(w as int, h as int, x as int, y as int);
                }
                let i = y * w + x;
                proof {
                    assert(self.cell(x as int, y as int) == orig.cell(x as int, y as int));
                    assert(cell_inv(orig.cell(x as int, y as int)));
                }
                let c = self.cells[i];
                let nc = move_step_cell(c, x, y, ox, oy);
                let ghost before = *self;
                self.cells.set(i, nc);
                proof {
                    assert forall|a: int, b: int| orig.in_grid(a, b)
                        && !(a == x as int && b == y as int)
                        implies #[trigger] self.cell(a, b) == before.cell(a, b) by {
                        lemma_grid_index_injective(w as int, a, b, x as int, y as int);
                        lemma_grid_index_bounds(w as int, h as int, a, b);
                        assert(self.cells@ == before.cells@.update(i as int, nc));
                    }
                    assert(self.cell(x as int, y as int) == nc);
                }
                x = x + 1;
            }
            y = y + 1;
        }
        proof {
            assert forall|a: int, b: int| orig.in_grid(a, b) implies cell_inv(
                #[trigger] self.cell(a, b),
            ) by {
                lemma_sq_dist_nonneg(a, b, ox as int, oy as int);
                lemma_step_inv(orig.cell(a, b), sq_dist(a, b, ox as int, oy as int));
            }
        }
    }
}

/// On a grid of the given dimensions, the row-by-row index of a tile lies
/// within the cell count.
pub proof fn lemma_grid_index_bounds(width: int, height: int, x: int, y: int)
    requires
        0 <= x < width,
        0 <= y < height,
    ensures
        0 <= y * width + x < width * height,
{
    assert(y * width + x < width * height) by (nonlinear_arith)
        requires
            0 <= x < width,
            0 <= y < height,
    ;
    assert(0 <= y * width) by (nonlinear_arith)
        requires
            0 <= y,
            0 <= width,
    ;
}

/// Distinct tiles have distinct row-by-row indices.
pub proof fn lemma_grid_index_injective(width: int, x1: int, y1: int, x2: int, y2: int)
    requires
        0 <= x1 < width,
        0 <= x2 < width,
        0 <= y1,
        0 <= y2,
        !(x1 == x2 && y1 == y2),
    ensures
        y1 * width + x1 != y2 * width + x2,
{
    assert(y1 * width + x1 != y2 * width + x2) by (nonlinear_arith)
        requires
            0 <= x1 < width,
            0 <= x2 < width,
            0 <= y1,
            0 <= y2,
            !(x1 == x2 && y1 == y2),
    ;
}

/// Computes the per-frame step for one tile.
fn frame_step_cell(c: FogCell, x: usize, y: usize, ox: usize, oy: usize) -> (r: FogCell)
    requires
        cell_inv(c),
    ensures
        r == frame_step(c, sq_dist(x as int, y as int, ox as int, oy as int)),
{
    let q = clamped_sq_dist(x, y, ox, oy);
    match q {
        Some(q) => {
            let a = alpha_milli(q);
            proof {
                lemma_alpha_bounds(q as int);
            }
            let new_opacity = if c.explored {
                if c.opacity <= a {
                    c.opacity
                } else {
                    a
                }
            } else {
                a
            };
            FogCell { opacity: new_opacity, explored: true }
        },
        None => {
            if c.explored {
                FogCell { opacity: c.opacity, explored: false }
            } else {
                c
            }
        },
    }
}

/// Computes the post-move step for one tile.
fn move_step_cell(c: FogCell, x: usize, y: usize, ox: usize, oy: usize) -> (r: FogCell)
    requires
        cell_inv(c),
    ensures
        r == move_step(c, sq_dist(x as int, y as int, ox as int, oy as int)),
{
    let q = clamped_sq_dist(x, y, ox, oy);
    match q {
        Some(q) => {
            let a = alpha_milli(q);
            FogCell { opacity: a, explored: true }
        },
        None => {
            if c.explored {
                FogCell { opacity: c.opacity, explored: false }
            } else {
                c
            }
        },
    }
}

/// The squared distance between `(x, y)` and `(ox, oy)` when it is within
/// the visibility range, and `None` when it exceeds it. Comparing the
/// coordinate differences against the range first keeps every intermediate
/// product small, whatever the grid size.
fn clamped_sq_dist(x: usize, y: usize, ox: usize, oy: usize) -> (r: Option<u32>)
    ensures
        r matches Some(q) ==> q == sq_dist(x as int, y as int, ox as int, oy as int)
            && q <= RANGE_SQUARED,
        r is None ==> sq_dist(x as int, y as int, ox as int, oy as int) > RANGE_SQUARED,
{
    let dx = if x >= ox {
        x - ox
    } else {
        ox - x
    };
    let dy = if y >= oy {
        y - oy
    } else {
        oy - y
    };
    proof {
        assert((x as int - ox as int) * (x as int - ox as int) == dx as int * dx as int)
            by (nonlinear_arith)
            requires
                dx == x as int - ox as int || dx == ox as int - x as int,
        ;
        assert((y as int - oy as int) * (y as int - oy as int) == dy as int * dy as int)
            by (nonlinear_arith)
            requires
                dy == y as int - oy as int || dy == oy as int - y as int,
        ;
    }
    let range = MAX_VISIBILITY_RANGE as usize;
    if dx <= range && dy <= range {
        proof {
            assert(dx as int * dx as int <= 25 && dy as int * dy as int <= 25)
                by (nonlinear_arith)
                requires
                    dx <= 5,
                    dy <= 5,
            ;
        }
        let q = dx * dx + dy * dy;
        if q <= RANGE_SQUARED as usize {
            Some(q as u32)
        } else {
            None
        }
    } else {
        proof {
            if dx > range {
                assert(dx as int * dx as int > 25) by (nonlinear_arith)
                    requires dx > 5;
            } else {
                assert(dy as int * dy as int > 25) by (nonlinear_arith)
                    requires dy > 5;
            }
            lemma_sq_dist_nonneg(x as int, y as int, ox as int, oy as int);
            assert(0 <= dx as int * dx as int) by (nonlinear_arith);
            assert(0 <= dy as int * dy as int) by (nonlinear_arith);
        }
        None
    }
}

} // verus!
