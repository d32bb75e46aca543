//! The simulation session: the world together with the configuration and
//! the painting state that the host UI's pointer events drive. The session
//! holds the decisions — what a tick does, what each pointer event does —
//! while the host glue owns the canvas, the event listeners and the timer
//! and merely forwards to it.

use vstd::prelude::*;

use crate::engine::{Cell, World, alive_at, idx_of, in_range, lemma_idx_coords, step};
use crate::ui::Point;

verus! {

/// Configuration of the simulation driver: the interval, in milliseconds,
/// at which the host timer is asked to call `tick`.
#[derive(PartialEq, Eq, Structural, Copy, Clone, Debug)]
pub struct Config {
    pub update_interval: i32,
}

/// A simulation session: a world, its driver configuration, and whether a
/// pointer button is currently held down (painting mode).
pub struct State {
    world: World,
    config: Config,
    is_mouse_down: bool,
}

impl State {
    /// Validity: the owned world is well-formed.
    pub closed spec fn wf(self) -> bool {
        self.world.wf()
    }

    /// The owned world.
    pub closed spec fn spec_world(self) -> World {
        self.world
    }

    /// The driver configuration.
    pub closed spec fn spec_config(self) -> Config {
        self.config
    }

    /// Whether a pointer button is currently held down (painting mode).
    pub closed spec fn mouse_down(self) -> bool {
        self.is_mouse_down
    }

    /// Create a new session over the given world, with painting mode off.
    pub fn new(world: World, config: Config) -> (r: State)
        requires
            world.wf(),
        ensures
            r.wf(),
            r.spec_world() == world,
            r.spec_config() == config,
            !r.mouse_down(),
    {
        State { world, config, is_mouse_down: false }
    }

    /// An independent copy of the session: the same generation, dimensions,
    /// configuration and painting state, over separately owned buffers.
    pub fn clone(&self) -> (r: State)
        requires
            self.wf(),
        ensures
            r.wf(),
            r.spec_world().spec_width() == self.spec_world().spec_width(),
            r.spec_world().spec_height() == self.spec_world().spec_height(),
            r.spec_world().grid() == self.spec_world().grid(),
            r.spec_config() == self.spec_config(),
            r.mouse_down() == self.mouse_down(),
    {
        State { world: self.world.clone(), config: self.config, is_mouse_down: self.is_mouse_down }
    }

    /// Paint the cell at the given point alive.
    fn put_cell(&mut self, x: i32, y: i32)
        requires
            old(self).wf(),
            in_range(
                old(self).spec_world().spec_width(),
                old(self).spec_world().spec_height(),
                x as int,
                y as int,
            ),
        ensures
            final(self).wf(),
            final(self).spec_world().spec_width() == old(self).spec_world().spec_width(),
            final(self).spec_world().spec_height() == old(self).spec_world().spec_height(),
            final(self).spec_world().grid() == old(self).spec_world().grid().update(
                idx_of(old(self).spec_world().spec_width(), x as int, y as int),
                Cell::Alive,
            ),
            final(self).spec_config() == old(self).spec_config(),
            final(self).mouse_down() == old(self).mouse_down(),
    {
        self.world.set_cell(x, y, Cell::Alive);
    }

    /// Advance the world one generation.
    pub fn tick(&mut self)
        requires
            old(self).wf(),
        ensures
            final(self).wf(),
            final(self).spec_world().spec_width() == old(self).spec_world().spec_width(),
            final(self).spec_world().spec_height() == old(self).spec_world().spec_height(),
            final(self).spec_world().grid() == step(
                old(self).spec_world().grid(),
                old(self).spec_world().spec_width(),
                old(self).spec_world().spec_height(),
            ),
            final(self).spec_config() == old(self).spec_config(),
            final(self).mouse_down() == old(self).mouse_down(),
    {
        self.world.next_gen();
    }

    /// A pointer button was pressed at the given point: painting mode turns
    /// on and the cell at the point is painted alive.
    pub fn on_mouse_down(&mut self, point: Point)
        requires
            old(self).wf(),
            in_range(
                old(self).spec_world().spec_width(),
                old(self).spec_world().spec_height(),
                point.x as int,
                point.y as int,
            ),
        ensures
            final(self).wf(),
            final(self).mouse_down(),
            final(self).spec_world().spec_width() == old(self).spec_world().spec_width(),
            final(self).spec_world().spec_height() == old(self).spec_world().spec_height(),
            final(self).spec_world().grid() == old(self).spec_world().grid().update(
                idx_of(old(self).spec_world().spec_width(), point.x as int, point.y as int),
                Cell::Alive,
            ),
            final(self).spec_config() == old(self).spec_config(),
    {
        self.is_mouse_down = true;
        self.put_cell(point.x, point.y);
    }

    /// The pointer moved: with painting mode on, the cell at the point is
    /// painted alive; with it off, nothing changes.
    pub fn on_mouse_move(&mut self, point: Point)
        requires
            old(self).wf(),
            old(self).mouse_down() ==> in_range(
                old(self).spec_world().spec_width(),
                old(self).spec_world().spec_height(),
                point.x as int,
                point.y as int,
            ),
        ensures
            final(self).wf(),
            final(self).mouse_down() == old(self).mouse_down(),
            final(self).spec_world().spec_width() == old(self).spec_world().spec_width(),
            final(self).spec_world().spec_height() == old(self).spec_world().spec_height(),
            old(self).mouse_down() ==> final(self).spec_world().grid() == old(
                self,
            ).spec_world().grid().update(
                idx_of(old(self).spec_world().spec_width(), point.x as int, point.y as int),
                Cell::Alive,
            ),
            !old(self).mouse_down() ==> final(self).spec_world() == old(self).spec_world(),
            final(self).spec_config() == old(self).spec_config(),
    {
        if !self.is_mouse_down {
            return;
        }
        self.put_cell(point.x, point.y);
    }

    /// The pointer button was released: painting mode turns off; the world
    /// is untouched.
    pub fn on_mouse_up(&mut self)
        ensures
            final(self).wf() == old(self).wf(),
            !final(self).mouse_down(),
            final(self).spec_world() == old(self).spec_world(),
            final(self).spec_config() == old(self).spec_config(),
    {
        self.is_mouse_down = false;
    }

    /// The points of the alive cells of the current generation, in row-major
    /// order: exactly the alive points, each listed once, with strictly
    /// increasing row-major indices. The host redraws its canvas by clearing
    /// it and drawing precisely these cells.
    pub fn alive_cells(&self) -> (r: Vec<Point>)
        requires
            self.wf(),
        ensures
            forall|k: int|
                0 <= k < r@.len() ==> alive_at(
                    self.spec_world().grid(),
                    self.spec_world().spec_width(),
                    self.spec_world().spec_height(),
                    (#[trigger] r@[k]).x as int,
                    r@[k].y as int,
                ),
            forall|k1: int, k2: int|
                0 <= k1 < k2 < r@.len() ==> idx_of(
                    self.spec_world().spec_width(),
                    (#[trigger] r@[k1]).x as int,
                    r@[k1].y as int,
                ) < idx_of(
                    self.spec_world().spec_width(),
                    (#[trigger] r@[k2]).x as int,
                    r@[k2].y as int,
                ),
            forall|x: int, y: int|
                #[trigger] alive_at(
                    self.spec_world().grid(),
                    self.spec_world().spec_width(),
                    self.spec_world().spec_height(),
                    x,
                    y,
                ) ==> r@.contains((Point { x: x as i32, y: y as i32 })),
    {
        let ghost g = self.spec_world().grid();
        let ghost w = self.spec_world().spec_width();
        let ghost h = self.spec_world().spec_height();
        proof {
            self.spec_world().lemma_wf_dims();
        }
        let width = self.world.width();
        let height = self.world.height();
        let mut r: Vec<Point> = Vec::new();
        let mut col: i32 = 0;
        while col < height
            invariant
                self.wf(),
                g == self.spec_world().grid(),
                w == self.spec_world().spec_width(),
                h == self.spec_world().spec_height(),
                width as int == w,
                height as int == h,
                1 <= w,
                1 <= h,
                g.len() == w * h,
                0 <= col <= height,
                forall|k: int|
                    0 <= k < r@.len() ==> alive_at(g, w, h, (#[trigger] r@[k]).x as int, r@[k].y as int),
                forall|k: int|
                    0 <= k < r@.len() ==> idx_of(w, (#[trigger] r@[k]).x as int, r@[k].y as int)
                        < idx_of(w, 0, col as int),
                forall|k1: int, k2: int|
                    0 <= k1 < k2 < r@.len() ==> idx_of(w, (#[trigger] r@[k1]).x as int, r@[k1].y as int)
                        < idx_of(w, (#[trigger] r@[k2]).x as int, r@[k2].y as int),
                forall|x: int, y: int|
                    #[trigger] alive_at(g, w, h, x, y) && idx_of(w, x, y) < idx_of(w, 0, col as int)
                        ==> r@.contains((Point { x: x as i32, y: y as i32 })),
            decreases height - col,
        {
            let mut row: i32 = 0;
            while row < width
                invariant
                    self.wf(),
                    g == self.spec_world().grid(),
                    w == self.spec_world().spec_width(),
                    h == self.spec_world().spec_height(),
                    width as int == w,
                    height as int == h,
                    1 <= w,
                    1 <= h,
                    g.len() == w * h,
                    0 <= col < height,
                    0 <= row <= width,
                    forall|k: int|
                        0 <= k < r@.len() ==> alive_at(
                            g,
                            w,
                            h,
                            (#[trigger] r@[k]).x as int,
                            r@[k].y as int,
                        ),
                    forall|k: int|
                        0 <= k < r@.len() ==> idx_of(w, (#[trigger] r@[k]).x as int, r@[k].y as int)
                            < idx_of(w, row as int, col as int),
                    forall|k1: int, k2: int|
                        0 <= k1 < k2 < r@.len() ==> idx_of(
                            w,
                            (#[trigger] r@[k1]).x as int,
                            r@[k1].y as int,
                        ) < idx_of(w, (#[trigger] r@[k2]).x as int, r@[k2].y as int),
                    forall|x: int, y: int|
                        #[trigger] alive_at(g, w, h, x, y) && idx_of(w, x, y) < idx_of(
                            w,
                            row as int,
                            col as int,
                        ) ==> r@.contains((Point { x: x as i32, y: y as i32 })),
                decreases width - row,
            {
                let current = self.world.cell_at(row, col);
                let ghost r0 = r@;
                if current == Cell::Alive {
                    r.push(Point { x: row, y: col });
                }
                proof {
                    lemma_idx_coords(w, row as int, col as int);
                    assert forall|x: int, y: int|
                        #[trigger] alive_at(g, w, h, x, y) && idx_of(w, x, y) < idx_of(
                            w,
                            row as int + 1,
                            col as int,
                        ) implies r@.contains((Point { x: x as i32, y: y as i32 })) by {
                        lemma_idx_coords(w, x, y);
                        let p = (Point { x: x as i32, y: y as i32 });
                        if idx_of(w, x, y) < idx_of(w, row as int, col as int) {
                            assert(r0.contains(p));
                            let ki = choose|ki: int| 0 <= ki < r0.len() && r0[ki] == p;
                            assert(r@[ki] == p);
                        } else {
                            assert(x == row as int && y == col as int);
                            assert(current == Cell::Alive);
                            assert(r@ == r0.push((Point { x: row, y: col })));
                            assert(r@[r@.len() - 1] == p);
                        }
                    }
                }
                row = row + 1;
            }
            proof {
                assert(idx_of(w, w, col as int) == idx_of(w, 0, col as int + 1)) by (nonlinear_arith);
            }
            col = col + 1;
        }
        proof {
            assert forall|x: int, y: int| #[trigger] alive_at(g, w, h, x, y) implies idx_of(
                w,
                x,
                y,
            ) < idx_of(w, 0, h) by {
                crate::engine::lemma_idx_in_range(w, h, x, y);
                assert(idx_of(w, 0, h) == w * h) by (nonlinear_arith);
            }
        }
        r
    }

    /// Whether a pointer button is currently held down.
    pub fn is_mouse_down(&self) -> (r: bool)
        ensures
            r == self.mouse_down(),
    {
        self.is_mouse_down
    }

    /// The driver configuration, for the host timer to read.
    pub fn config(&self) -> (r: Config)
        ensures
            r == self.spec_config(),
    {
        self.config
    }
}

} // verus!
