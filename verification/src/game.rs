//! The scene: a fog field, a terrain layer, one observer and one fixed
//! object of interest, driven by discrete movement and interact commands.
//!
//! A command handler validates each move against the grid boundary, applies
//! it, and runs the post-move fog refresh; an invalid move is silently
//! dropped, with no state change and no refresh. The per-frame refresh and
//! the per-tile read API are what an external renderer uses each frame: it
//! refreshes, then asks every tile for its terrain flag and its shadow
//! overlay, and finally whether the object may be painted.

use vstd::prelude::*;
use crate::fog::{
    FogCell, FogField, sq_dist, frame_step, move_step, lemma_grid_index_bounds,
};
use crate::falloff::OPACITY_SCALE;

verus! {

/// A discrete input command: four directional moves and one interaction.
#[derive(Clone, Copy, PartialEq, Eq, Structural)]
pub enum Command {
    Up,
    Left,
    Down,
    Right,
    Interact,
}

/// The scene state.
pub struct Game {
    /// The fog layer.
    pub fog: FogField,
    /// Observer (player) tile, always on the grid.
    pub observer_x: usize,
    pub observer_y: usize,
    /// The object of interest's tile, fixed at construction.
    pub object_x: usize,
    pub object_y: usize,
    /// Terrain flags, one per tile, row by row; read by the renderer for
    /// its colour choice and never written by the fog logic. They are an
    /// externally settable configuration input.
    pub terrain: Vec<bool>,
}

impl Game {
    /// Well-formed scene: a well-formed fog field, both positions on the
    /// grid, and one terrain flag per tile.
    pub open spec fn wf(self) -> bool {
        &&& self.fog.wf()
        &&& self.observer_x < self.fog.width
        &&& self.observer_y < self.fog.height
        &&& self.object_x < self.fog.width
        &&& self.object_y < self.fog.height
        &&& self.terrain@.len() == self.fog.width * self.fog.height
    }

    /// The terrain flag of tile `(x, y)` as seen by specifications.
    pub open spec fn terrain_spec(self, x: int, y: int) -> bool {
        self.terrain@[y * self.fog.width + x]
    }

    /// Whether a movement command is valid in the current state: a move
    /// across the grid boundary is not. A rightward move is gated on both
    /// `x > 0` (a deliberate quirk of this scene: the leftmost column
    /// refuses rightward moves as well as leftward ones) and `x + 1 < width`
    /// (so that the observer can never leave the grid).
    pub open spec fn move_valid(self, cmd: Command) -> bool {
        match cmd {
            Command::Up => self.observer_y > 0,
            Command::Left => self.observer_x > 0,
            Command::Down => self.observer_y + 1 < self.fog.height,
            Command::Right => self.observer_x > 0 && self.observer_x + 1 < self.fog.width,
            Command::Interact => false,
        }
    }

    /// The observer's x coordinate after a valid movement command.
    pub open spec fn target_x(self, cmd: Command) -> int {
        match cmd {
            Command::Left => self.observer_x - 1,
            Command::Right => self.observer_x + 1,
            _ => self.observer_x as int,
        }
    }

    /// The observer's y coordinate after a valid movement command.
    pub open spec fn target_y(self, cmd: Command) -> int {
        match cmd {
            Command::Up => self.observer_y - 1,
            Command::Down => self.observer_y + 1,
            _ => self.observer_y as int,
        }
    }

    /// A fresh scene on a `width` by `height` grid with the observer and
    /// the object at the given tiles, every tile fully fogged and
    /// unexplored, and all terrain flags clear. Construction is refused
    /// (`None`) exactly when a dimension is zero, the cell count overflows
    /// `usize`, or a position is off the grid.
    pub fn new(
        width: usize,
        height: usize,
        observer_x: usize,
        observer_y: usize,
        object_x: usize,
        object_y: usize,
    ) -> (r: Option<Game>)
        ensures
            r is Some <==> {
                &&& 0 < width
                &&& 0 < height
                &&& width * height <= usize::MAX
                &&& observer_x < width
                &&& observer_y < height
                &&& object_x < width
                &&& object_y < height
            },
            r matches Some(g) ==> {
                &&& g.wf()
                &&& g.fog.width == width
                &&& g.fog.height == height
                &&& g.observer_x == observer_x
                &&& g.observer_y == observer_y
                &&& g.object_x == object_x
                &&& g.object_y == object_y
                &&& forall|x: int, y: int| g.fog.in_grid(x, y) ==> #[trigger] g.fog.cell(x, y)
                    == (FogCell { opacity: OPACITY_SCALE, explored: false })
                &&& forall|x: int, y: int| g.fog.in_grid(x, y) ==> !#[trigger] g.terrain_spec(x, y)
            },
    {
        if observer_x >= width || observer_y >= height || object_x >= width
            || object_y >= height {
            return None;
        }
        let fog = match FogField::new(width, height) {
            Some(f) => f,
            None => {
                return None;
            },
        };
        let total = fog.cells.len();
        let mut terrain: Vec<bool> = Vec::new();
        let mut i: usize = 0;
        while i < total
            invariant
                i <= total,
                terrain@.len() == i,
                forall|j: int| 0 <= j < i ==> !(#[trigger] terrain@[j]),
            decreases total - i,
        {
            terrain.push(false);
            i = i + 1;
        }
        let g = Game { fog, observer_x, observer_y, object_x, object_y, terrain };
        proof {
            assert forall|x: int, y: int| g.fog.in_grid(x, y) implies !#[trigger] g.terrain_spec(
                x,
                y,
            ) by {
                lemma_grid_index_bounds(width as int, height as int, x, y);
            }
        }
        Some(g)
    }

    /// A fresh scene with the observer and the object each placed on a
    /// uniformly random tile of the grid. Construction is refused (`None`)
    /// exactly when a dimension is zero or the cell count overflows
    /// `usize`.
    pub fn new_random(width: usize, height: usize) -> (r: Option<Game>)
        ensures
            r is Some <==> 0 < width && 0 < height && width * height <= usize::MAX,
            r matches Some(g) ==> {
                &&& g.wf()
                &&& g.fog.width == width
                &&& g.fog.height == height
                &&& forall|x: int, y: int| g.fog.in_grid(x, y) ==> #[trigger] g.fog.cell(x, y)
                    == (FogCell { opacity: OPACITY_SCALE, explored: false })
                &&& forall|x: int, y: int| g.fog.in_grid(x, y) ==> !#[trigger] g.terrain_spec(x, y)
            },
    {
        if width == 0 || height == 0 {
            return None;
        }
        let observer_x = random_below(width);
        let observer_y = random_below(height);
        let object_x = random_below(width);
        let object_y = random_below(height);
        Game::new(width, height, observer_x, observer_y, object_x, object_y)
    }

    /// Handles one discrete input command.
    ///
    /// A valid movement command moves the observer one tile and runs the
    /// post-move fog refresh from the new position; an invalid one (a
    /// boundary violation, per `move_valid`) changes nothing and refreshes
    /// nothing. An interact command never changes state; it returns the
    /// observer's tile — the notification to be shown — exactly when the
    /// observer stands on the object's tile, and `None` otherwise. Movement
    /// commands return `None`.
    pub fn handle_command(&mut self, cmd: Command) -> (r: Option<(usize, usize)>)
        requires
            old(self).wf(),
        ensures
            final(self).wf(),
            cmd == Command::Interact ==> *final(self) == *old(self),
            cmd == Command::Interact ==> (r is Some <==> old(self).observer_x == old(self).object_x
                && old(self).observer_y == old(self).object_y),
            cmd == Command::Interact && r is Some ==> r == Some(
                (old(self).observer_x, old(self).observer_y),
            ),
            cmd != Command::Interact ==> r is None,
            cmd != Command::Interact && !old(self).move_valid(cmd) ==> *final(self) == *old(self),
            cmd != Command::Interact && old(self).move_valid(cmd) ==> {
                &&& final(self).observer_x == old(self).target_x(cmd)
                &&& final(self).observer_y == old(self).target_y(cmd)
                &&& final(self).object_x == old(self).object_x
                &&& final(self).object_y == old(self).object_y
                &&& final(self).terrain@ == old(self).terrain@
                &&& final(self).fog.width == old(self).fog.width
                &&& final(self).fog.height == old(self).fog.height
                &&& forall|x: int, y: int| old(self).fog.in_grid(x, y)
                    ==> #[trigger] final(self).fog.cell(x, y) == move_step(
                    old(self).fog.cell(x, y),
                    sq_dist(x, y, old(self).target_x(cmd), old(self).target_y(cmd)),
                )
            },
    {
        match cmd {
            Command::Up => {
                if self.observer_y > 0 {
                    self.observer_y = self.observer_y - 1;
                    let ox = self.observer_x;
                    let oy = self.observer_y;
                    self.fog.refresh_after_move(ox, oy);
                }
                None
            },
            Command::Left => {
                if self.observer_x > 0 {
                    self.observer_x = self.observer_x - 1;
                    let ox = self.observer_x;
                    let oy = self.observer_y;
                    self.fog.refresh_after_move(ox, oy);
                }
                None
            },
            Command::Down => {
                if self.observer_y + 1 < self.fog.height {
                    self.observer_y = self.observer_y + 1;
                    let ox = self.observer_x;
                    let oy = self.observer_y;
                    self.fog.refresh_after_move(ox, oy);
                }
                None
            },
            Command::Right => {
                if self.observer_x > 0 && self.observer_x + 1 < self.fog.width {
                    self.observer_x = self.observer_x + 1;
                    let ox = self.observer_x;
                    let oy = self.observer_y;
                    self.fog.refresh_after_move(ox, oy);
                }
                None
            },
            Command::Interact => {
                if self.observer_x == self.object_x && self.observer_y == self.object_y {
                    Some((self.observer_x, self.observer_y))
                } else {
                    None
                }
            },
        }
    }

    /// Per-frame fog refresh from the observer's current position; run once
    /// per render tick, before the renderer reads the per-tile state.
    pub fn refresh_frame(&mut self)
        requires
            old(self).wf(),
        ensures
            final(self).wf(),
            final(self).observer_x == old(self).observer_x,
            final(self).observer_y == old(self).observer_y,
            final(self).object_x == old(self).object_x,
            final(self).object_y == old(self).object_y,
            final(self).terrain@ == old(self).terrain@,
            final(self).fog.width == old(self).fog.width,
            final(self).fog.height == old(self).fog.height,
            forall|x: int, y: int| old(self).fog.in_grid(x, y)
                ==> #[trigger] final(self).fog.cell(x, y) == frame_step(
                old(self).fog.cell(x, y),
                sq_dist(x, y, old(self).observer_x as int, old(self).observer_y as int),
            ),
    {
        let ox = self.observer_x;
        let oy = self.observer_y;
        self.fog.refresh_frame(ox, oy);
    }

    /// The shadow overlay decision for tile `(x, y)`: `Some` of the
    /// retained opacity exactly when the tile is not currently explored and
    /// is not the observer's own tile (those are painted over with the
    /// shadow colour at that alpha), `None` when no shadow is painted.
    pub fn shadow_overlay(&self, x: usize, y: usize) -> (r: Option<u32>)
        requires
            self.wf(),
            self.fog.in_grid(x as int, y as int),
        ensures
            r is Some <==> !self.fog.cell(x as int, y as int).explored && !(x == self.observer_x
                && y == self.observer_y),
            r matches Some(o) ==> o == self.fog.cell(x as int, y as int).opacity,
    {
        if !self.fog.explored(x, y) && !(x == self.observer_x && y == self.observer_y) {
            Some(self.fog.opacity(x, y))
        } else {
            None
        }
    }

    /// Whether the object of interest may be painted: exactly when its
    /// tile's fog is currently marked explored, regardless of where the
    /// observer stands.
    pub fn object_visible(&self) -> (r: bool)
        requires
            self.wf(),
        ensures
            r == self.fog.cell(self.object_x as int, self.object_y as int).explored,
    {
        self.fog.explored(self.object_x, self.object_y)
    }

    /// The terrain flag of tile `(x, y)`.
    pub fn terrain_at(&self, x: usize, y: usize) -> (r: bool)
        requires
            self.wf(),
            self.fog.in_grid(x as int, y as int),
        ensures
            r == self.terrain_spec(x as int, y as int),
    {
        proof {
            lemma_grid_index_bounds(
                self.fog.width as int,
                self.fog.height as int,
                x as int,
                y as int,
            );
        }
        self.terrain[y * self.fog.width + x]
    }

    /// Sets the terrain flag of tile `(x, y)`; nothing else changes. The
    /// fog logic never calls this: terrain is configuration loaded from
    /// outside.
    pub fn set_terrain(&mut self, x: usize, y: usize, v: bool)
        requires
            old(self).wf(),
            old(self).fog.in_grid(x as int, y as int),
        ensures
            final(self).wf(),
            final(self).fog == old(self).fog,
            final(self).observer_x == old(self).observer_x,
            final(self).observer_y == old(self).observer_y,
            final(self).object_x == old(self).object_x,
            final(self).object_y == old(self).object_y,
            final(self).terrain_spec(x as int, y as int) == v,
            forall|a: int, b: int| old(self).fog.in_grid(a, b) && !(a == x as int && b == y as int)
                ==> #[trigger] final(self).terrain_spec(a, b) == old(self).terrain_spec(a, b),
    {
        proof {
            lemma_grid_index_bounds(
                self.fog.width as int,
                self.fog.height as int,
                x as int,
                y as int,
            );
        }
        let i = y * self.fog.width + x;
        self.terrain.set(i, v);
        proof {
            assert forall|a: int, b: int| old(self).fog.in_grid(a, b) && !(a == x as int && b == y
                as int) implies #[trigger] self.terrain_spec(a, b) == old(self).terrain_spec(
                a,
                b,
            ) by {
                crate::fog::lemma_grid_index_injective(
                    self.fog.width as int,
                    a,
                    b,
                    x as int,
                    y as int,
                );
                lemma_grid_index_bounds(self.fog.width as int, self.fog.height as int, a, b);
            }
        }
    }

    /// The observer's tile.
    pub fn observer(&self) -> (r: (usize, usize))
        ensures
            r == (self.observer_x, self.observer_y),
    {
        (self.observer_x, self.observer_y)
    }

    /// The object of interest's tile.
    pub fn object(&self) -> (r: (usize, usize))
        ensures
            r == (self.object_x, self.object_y),
    {
        (self.object_x, self.object_y)
    }
}

/// Relies on `rand::Rng::gen_range` over the range `0..n`: it panics only
/// on an empty range — excluded by the precondition — and returns a value
/// of the range, hence below `n`. Nothing more is assumed of the draw.
#[verifier::external_body]
fn random_below(n: usize) -> (r: usize)
    requires
        0 < n,
    ensures
        r < n,
{
    rand::Rng::gen_range(&mut rand::thread_rng(), 0..n)
}

} // verus!

