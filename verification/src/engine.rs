//! The Game of Life engine: cells, the double-buffered grid store, and the
//! world that applies the generation rule.

use vstd::prelude::*;

verus! {

/// The state of one cell of the world.
#[derive(PartialEq, Eq, Structural, Copy, Clone, Debug)]
pub enum Cell {
    Alive,
    Dead,
}

/// Whether `(x, y)` lies inside a `w`-by-`h` grid.
pub open spec fn in_range(w: int, h: int, x: int, y: int) -> bool {
    0 <= x < w && 0 <= y < h
}

/// The row-major index of `(x, y)` in a grid of width `w`.
pub open spec fn idx_of(w: int, x: int, y: int) -> int {
    y * w + x
}

/// In a `w`-by-`h` grid held as the row-major sequence `g`, whether the cell
/// at `(x, y)` is alive. Positions outside the grid count as dead, so the
/// boundary is uniformly open (non-wrapping) on all four edges.
pub open spec fn alive_at(g: Seq<Cell>, w: int, h: int, x: int, y: int) -> bool {
    in_range(w, h, x, y) && g[idx_of(w, x, y)] == Cell::Alive
}

/// One where the condition holds, zero where it does not.
pub open spec fn count_bit(b: bool) -> int {
    if b {
        1
    } else {
        0
    }
}

/// The number of alive cells among the eight Moore neighbours of `(x, y)`;
/// neighbours outside the grid count as dead.
pub open spec fn neighbours(g: Seq<Cell>, w: int, h: int, x: int, y: int) -> int {
    count_bit(alive_at(g, w, h, x - 1, y - 1)) + count_bit(alive_at(g, w, h, x, y - 1))
        + count_bit(alive_at(g, w, h, x + 1, y - 1)) + count_bit(alive_at(g, w, h, x - 1, y))
        + count_bit(alive_at(g, w, h, x + 1, y)) + count_bit(alive_at(g, w, h, x - 1, y + 1))
        + count_bit(alive_at(g, w, h, x, y + 1)) + count_bit(alive_at(g, w, h, x + 1, y + 1))
}

/// Conway's rule for a single cell with current state `c` and `n` alive
/// neighbours: an alive cell survives exactly on two or three neighbours
/// (dying of underpopulation below two and of overpopulation above three),
/// and a dead cell comes alive exactly on three neighbours.
pub open spec fn rule(c: Cell, n: int) -> Cell {
    if c == Cell::Alive {
        if n < 2 {
            Cell::Dead
        } else if n <= 3 {
            Cell::Alive
        } else {
            Cell::Dead
        }
    } else {
        if n == 3 {
            Cell::Alive
        } else {
            Cell::Dead
        }
    }
}

/// The next generation of the whole grid `g` of width `w` and height `h`:
/// the rule applied to every cell at once, against the unmodified current
/// generation.
pub open spec fn step(g: Seq<Cell>, w: int, h: int) -> Seq<Cell> {
    Seq::new(g.len(), |i: int| rule(g[i], neighbours(g, w, h, i % w, i / w)))
}

/// Whether every cell of `g` is dead.
pub open spec fn all_dead(g: Seq<Cell>) -> bool {
    forall|i: int| 0 <= i < g.len() ==> g[i] == Cell::Dead
}

/// A row-major index of an in-range position lies inside a buffer of
/// length `w * h`.
pub proof fn lemma_idx_in_range(w: int, h: int, x: int, y: int)
    requires
        1 <= w,
        1 <= h,
        in_range(w, h, x, y),
    ensures
        0 <= idx_of(w, x, y) < w * h,
{
    assert(0 <= y * w + x < w * h) by (nonlinear_arith)
        requires
            1 <= w,
            1 <= h,
            0 <= x < w,
            0 <= y < h,
    ;
}

/// A row-major index decomposes back into its coordinates: taking the
/// remainder and the quotient by the width recovers `x` and `y`.
pub proof fn lemma_idx_coords(w: int, x: int, y: int)
    requires
        1 <= w,
        0 <= x < w,
        0 <= y,
    ensures
        idx_of(w, x, y) % w == x,
        idx_of(w, x, y) / w == y,
{
    vstd::arithmetic::div_mod::lemma_fundamental_div_mod_converse(y * w + x, w, y, x);
}

/// The grid after `n` generations: `step` applied `n` times.
pub open spec fn step_n(g: Seq<Cell>, w: int, h: int, n: nat) -> Seq<Cell>
    decreases n,
{
    if n == 0 {
        g
    } else {
        step(step_n(g, w, h, (n - 1) as nat), w, h)
    }
}

/// In an all-dead grid, no position has any alive neighbour.
pub proof fn lemma_all_dead_no_neighbours(g: Seq<Cell>, w: int, h: int, x: int, y: int)
    requires
        1 <= w,
        1 <= h,
        g.len() == w * h,
        all_dead(g),
    ensures
        neighbours(g, w, h, x, y) == 0,
{
    assert forall|x2: int, y2: int| !alive_at(g, w, h, x2, y2) by {
        if in_range(w, h, x2, y2) {
            lemma_idx_in_range(w, h, x2, y2);
        }
    }
}

/// No spontaneous generation: one generation of an all-dead grid leaves
/// every cell dead.
pub proof fn lemma_step_all_dead(g: Seq<Cell>, w: int, h: int)
    requires
        1 <= w,
        1 <= h,
        g.len() == w * h,
        all_dead(g),
    ensures
        step(g, w, h).len() == g.len(),
        all_dead(step(g, w, h)),
{
    assert forall|i: int| 0 <= i < step(g, w, h).len() implies step(g, w, h)[i] == Cell::Dead by {
        lemma_all_dead_no_neighbours(g, w, h, i % w, i / w);
    }
}

/// The empty state is stable: any number of generations of an all-dead grid
/// leaves every cell dead.
pub proof fn lemma_step_n_all_dead(g: Seq<Cell>, w: int, h: int, n: nat)
    requires
        1 <= w,
        1 <= h,
        g.len() == w * h,
        all_dead(g),
    ensures
        step_n(g, w, h, n).len() == g.len(),
        all_dead(step_n(g, w, h, n)),
    decreases n,
{
    if n > 0 {
        lemma_step_n_all_dead(g, w, h, (n - 1) as nat);
        lemma_step_all_dead(step_n(g, w, h, (n - 1) as nat), w, h);
    }
}

/// Underpopulation: an alive cell with no alive neighbours is dead in the
/// next generation.
pub proof fn lemma_isolated_cell_dies(g: Seq<Cell>, w: int, h: int, x: int, y: int)
    requires
        1 <= w,
        1 <= h,
        g.len() == w * h,
        in_range(w, h, x, y),
        g[idx_of(w, x, y)] == Cell::Alive,
        neighbours(g, w, h, x, y) == 0,
    ensures
        step(g, w, h)[idx_of(w, x, y)] == Cell::Dead,
{
    lemma_idx_in_range(w, h, x, y);
    lemma_idx_coords(w, x, y);
}

/// Overpopulation: an alive cell with all eight neighbours alive is dead in
/// the next generation.
pub proof fn lemma_crowded_cell_dies(g: Seq<Cell>, w: int, h: int, x: int, y: int)
    requires
        1 <= w,
        1 <= h,
        g.len() == w * h,
        in_range(w, h, x, y),
        g[idx_of(w, x, y)] == Cell::Alive,
        neighbours(g, w, h, x, y) == 8,
    ensures
        step(g, w, h)[idx_of(w, x, y)] == Cell::Dead,
{
    lemma_idx_in_range(w, h, x, y);
    lemma_idx_coords(w, x, y);
}

/// Write/read consistency: after writing a cell, the written point reads
/// back as the written cell and every other point is unchanged.
pub proof fn lemma_set_cell_cell_at(g: Seq<Cell>, w: int, h: int, x: int, y: int, c: Cell)
    requires
        1 <= w,
        1 <= h,
        g.len() == w * h,
        in_range(w, h, x, y),
    ensures
        g.update(idx_of(w, x, y), c)[idx_of(w, x, y)] == c,
        forall|x2: int, y2: int|
            in_range(w, h, x2, y2) && (x2 != x || y2 != y) ==> g.update(idx_of(w, x, y), c)[idx_of(
                w,
                x2,
                y2,
            )] == g[idx_of(w, x2, y2)],
{
    lemma_idx_in_range(w, h, x, y);
    assert forall|x2: int, y2: int|
        in_range(w, h, x2, y2) && (x2 != x || y2 != y) implies g.update(idx_of(w, x, y), c)[idx_of(
        w,
        x2,
        y2,
    )] == g[idx_of(w, x2, y2)] by {
        lemma_idx_in_range(w, h, x2, y2);
        if idx_of(w, x2, y2) == idx_of(w, x, y) {
            lemma_idx_coords(w, x, y);
            lemma_idx_coords(w, x2, y2);
        }
    }
}

/// Determinism: the next generation is a function of the current grid
/// alone, so equal grids step to equal grids, however often the rule is
/// rerun.
pub proof fn lemma_step_deterministic(g1: Seq<Cell>, g2: Seq<Cell>, w: int, h: int)
    requires
        g1 == g2,
    ensures
        step(g1, w, h) == step(g2, w, h),
{
}

/// A buffer of `length` dead cells.
fn dead_buffer(length: usize) -> (r: Vec<Cell>)
    ensures
        r@.len() == length,
        all_dead(r@),
{
    let mut v: Vec<Cell> = Vec::with_capacity(length);
    for k in 0..length
        invariant
            v@.len() == k,
            all_dead(v@),
    {
        v.push(Cell::Dead);
    }
    v
}

/// A storage with two buffers of cells.
///
/// This is useful for generating the next generation of the world while
/// referring to the current generation, and making this process happen
/// without allocating new memory: one buffer is the front (the current,
/// externally visible generation), the other the back (the write target for
/// the generation under construction), and `swap` exchanges the two roles in
/// constant time by flipping a selector, without copying any cells.
pub struct DoubleBuffer {
    a: Vec<Cell>,
    b: Vec<Cell>,
    front_is_a: bool,
}

impl DoubleBuffer {
    /// The cells of the front buffer.
    pub closed spec fn front(self) -> Seq<Cell> {
        if self.front_is_a {
            self.a@
        } else {
            self.b@
        }
    }

    /// The cells of the back buffer.
    pub closed spec fn back(self) -> Seq<Cell> {
        if self.front_is_a {
            self.b@
        } else {
            self.a@
        }
    }

    /// Create a new instance with two independently allocated, equally long,
    /// all-dead buffers.
    pub fn new(length: usize) -> (r: DoubleBuffer)
        ensures
            r.front().len() == length,
            r.back().len() == length,
            all_dead(r.front()),
            all_dead(r.back()),
    {
        DoubleBuffer { a: dead_buffer(length), b: dead_buffer(length), front_is_a: true }
    }

    /// Swap the buffers: the back becomes the front and the front the back.
    pub fn swap(&mut self)
        ensures
            final(self).front() == old(self).back(),
            final(self).back() == old(self).front(),
    {
        self.front_is_a = !self.front_is_a;
    }

    /// Returns the mutable reference to the back buffer.
    pub fn back_mut(&mut self) -> (r: &mut Vec<Cell>)
        ensures
            r@ == old(self).back(),
            final(self).back() == final(r)@,
            final(self).front() == old(self).front(),
    {
        if self.front_is_a {
            &mut self.b
        } else {
            &mut self.a
        }
    }

    /// Returns the mutable reference to the front buffer.
    pub fn front_mut(&mut self) -> (r: &mut Vec<Cell>)
        ensures
            r@ == old(self).front(),
            final(self).front() == final(r)@,
            final(self).back() == old(self).back(),
    {
        if self.front_is_a {
            &mut self.a
        } else {
            &mut self.b
        }
    }

    /// Returns the reference to the front buffer.
    pub fn front_ref(&self) -> (r: &Vec<Cell>)
        ensures
            r@ == self.front(),
    {
        if self.front_is_a {
            &self.a
        } else {
            &self.b
        }
    }
}

/// An element-for-element copy of a cell buffer.
fn clone_cells(v: &Vec<Cell>) -> (r: Vec<Cell>)
    ensures
        r@ == v@,
{
    let mut r: Vec<Cell> = Vec::with_capacity(v.len());
    let mut k: usize = 0;
    while k < v.len()
        invariant
            k <= v@.len(),
            r@.len() == k,
            forall|i: int| 0 <= i < k ==> r@[i] == v@[i],
        decreases v@.len() - k,
    {
        r.push(v[k]);
        k = k + 1;
    }
    proof {
        assert(r@ =~= v@);
    }
    r
}

impl Clone for DoubleBuffer {
    /// A deep copy: both buffers are copied cell for cell and their roles
    /// are preserved.
    fn clone(&self) -> (r: DoubleBuffer)
        ensures
            r.front() == self.front(),
            r.back() == self.back(),
    {
        DoubleBuffer {
            a: clone_cells(&self.a),
            b: clone_cells(&self.b),
            front_is_a: self.front_is_a,
        }
    }
}

/// The Game of Life world: a double-buffered grid of cells with a fixed
/// width and height.
///
/// Unlike a store that re-derives the height from the buffer length on every
/// call, the height is stored directly beside the width as an
/// invariant-preserving simplification: `wf` ties both dimensions to the
/// length of each buffer.
pub struct World {
    stride: i32,
    rows: i32,
    cells: DoubleBuffer,
}

impl World {
    /// Well-formedness: positive dimensions whose product fits the index
    /// type, and two buffers of exactly `width * height` cells.
    pub closed spec fn wf(self) -> bool {
        &&& 1 <= self.stride
        &&& 1 <= self.rows
        &&& (self.stride as int) * (self.rows as int) <= i32::MAX as int
        &&& self.cells.front().len() == (self.stride as int) * (self.rows as int)
        &&& self.cells.back().len() == (self.stride as int) * (self.rows as int)
    }

    /// The width of the world.
    pub closed spec fn spec_width(self) -> int {
        self.stride as int
    }

    /// The height of the world.
    pub closed spec fn spec_height(self) -> int {
        self.rows as int
    }

    /// The cells of the current generation, in row-major order.
    pub closed spec fn grid(self) -> Seq<Cell> {
        self.cells.front()
    }

    /// What well-formedness gives every caller: positive dimensions whose
    /// product bounds the grid length.
    pub proof fn lemma_wf_dims(self)
        requires
            self.wf(),
        ensures
            1 <= self.spec_width(),
            1 <= self.spec_height(),
            self.spec_width() * self.spec_height() <= i32::MAX as int,
            self.grid().len() == self.spec_width() * self.spec_height(),
    {
    }

    /// Create a new world of the given size with every cell dead.
    pub fn new(width: i32, height: i32) -> (r: World)
        requires
            1 <= width,
            1 <= height,
            (width as int) * (height as int) <= i32::MAX as int,
        ensures
            r.wf(),
            r.spec_width() == width as int,
            r.spec_height() == height as int,
            r.grid().len() == (width as int) * (height as int),
            all_dead(r.grid()),
    {
        proof {
            assert(1 <= (width as int) * (height as int)) by (nonlinear_arith)
                requires
                    1 <= width,
                    1 <= height,
            ;
        }
        let length = (width * height) as usize;
        let cells = DoubleBuffer::new(length);
        World { stride: width, rows: height, cells }
    }

    /// The width of the world.
    pub fn width(&self) -> (r: i32)
        ensures
            r == self.spec_width(),
    {
        self.stride
    }

    /// The height of the world.
    pub fn height(&self) -> (r: i32)
        ensures
            r == self.spec_height(),
    {
        self.rows
    }

    /// Modifies the cell at the given point of the current generation.
    pub fn set_cell(&mut self, x: i32, y: i32, cell: Cell)
        requires
            old(self).wf(),
            in_range(old(self).spec_width(), old(self).spec_height(), x as int, y as int),
        ensures
            final(self).wf(),
            final(self).spec_width() == old(self).spec_width(),
            final(self).spec_height() == old(self).spec_height(),
            final(self).grid() == old(self).grid().update(
                idx_of(old(self).spec_width(), x as int, y as int),
                cell,
            ),
    {
        let index = self.index(x, y);
        self.cells.front_mut().set(index, cell);
    }

    /// Returns a copy of the cell at the given point of the current
    /// generation.
    pub fn cell_at(&self, x: i32, y: i32) -> (r: Cell)
        requires
            self.wf(),
            in_range(self.spec_width(), self.spec_height(), x as int, y as int),
        ensures
            r == self.grid()[idx_of(self.spec_width(), x as int, y as int)],
    {
        let index = self.index(x, y);
        self.cells.front_ref()[index]
    }

    /// Whether the given point lies inside the world and holds an alive
    /// cell; points outside the world count as dead (open boundary).
    fn is_alive(&self, x: i32, y: i32) -> (r: bool)
        requires
            self.wf(),
        ensures
            r == alive_at(self.grid(), self.spec_width(), self.spec_height(), x as int, y as int),
    {
        if x < 0 || y < 0 || x >= self.stride || y >= self.rows {
            false
        } else {
            let index = self.index(x, y);
            self.cells.front_ref()[index] == Cell::Alive
        }
    }

    /// Returns the count of alive neighbours of the cell at the given point,
    /// treating every position outside the world as dead.
    pub fn neighbour_count(&self, x: i32, y: i32) -> (r: i32)
        requires
            self.wf(),
            in_range(self.spec_width(), self.spec_height(), x as int, y as int),
        ensures
            r == neighbours(self.grid(), self.spec_width(), self.spec_height(), x as int, y as int),
            0 <= r <= 8,
    {
        let mut count: i32 = 0;
        if self.is_alive(x - 1, y - 1) {
            count = count + 1;
        }
        if self.is_alive(x, y - 1) {
            count = count + 1;
        }
        if self.is_alive(x + 1, y - 1) {
            count = count + 1;
        }
        if self.is_alive(x - 1, y) {
            count = count + 1;
        }
        if self.is_alive(x + 1, y) {
            count = count + 1;
        }
        if self.is_alive(x - 1, y + 1) {
            count = count + 1;
        }
        if self.is_alive(x, y + 1) {
            count = count + 1;
        }
        if self.is_alive(x + 1, y + 1) {
            count = count + 1;
        }
        count
    }

    /// Generate the next generation: apply the rule to every cell of the
    /// current generation, writing the results into the back buffer, then
    /// swap the buffers so the just-computed generation becomes current.
    pub fn next_gen(&mut self)
        requires
            old(self).wf(),
        ensures
            final(self).wf(),
            final(self).spec_width() == old(self).spec_width(),
            final(self).spec_height() == old(self).spec_height(),
            final(self).grid() == step(
                old(self).grid(),
                old(self).spec_width(),
                old(self).spec_height(),
            ),
    {
        let w = self.stride;
        let h = self.rows;
        let ghost g0 = self.grid();
        let ghost next = step(g0, w as int, h as int);
        let mut col: i32 = 0;
        while col < h
            invariant
                self.wf(),
                self.spec_width() == w as int,
                self.spec_height() == h as int,
                self.grid() == g0,
                next == step(g0, w as int, h as int),
                0 <= col <= h,
                forall|i: int|
                    0 <= i < idx_of(w as int, 0, col as int) ==> self.cells.back()[i] == next[i],
            decreases h - col,
        {
            let mut row: i32 = 0;
            while row < w
                invariant
                    self.wf(),
                    self.spec_width() == w as int,
                    self.spec_height() == h as int,
                    self.grid() == g0,
                    next == step(g0, w as int, h as int),
                    0 <= col < h,
                    0 <= row <= w,
                    forall|i: int|
                        0 <= i < idx_of(w as int, row as int, col as int) ==> self.cells.back()[i]
                            == next[i],
                decreases w - row,
            {
                let index = self.index(row, col);
                let neighbour_count = self.neighbour_count(row, col);

                let next_gen_cell = if self.cell_at(row, col) == Cell::Alive {
                    if neighbour_count < 2 {
                        Cell::Dead
                    } else if neighbour_count <= 3 {
                        Cell::Alive
                    } else {
                        Cell::Dead
                    }
                } else {
                    if neighbour_count == 3 {
                        Cell::Alive
                    } else {
                        Cell::Dead
                    }
                };
                proof {
                    lemma_idx_coords(w as int, row as int, col as int);
                    assert(next_gen_cell == next[idx_of(w as int, row as int, col as int)]);
                }

                // Fill the next generation cell into the back store.
                let back = self.cells.back_mut();
                back.set(index, next_gen_cell);
                row = row + 1;
            }
            proof {
                assert(idx_of(w as int, w as int, col as int) == idx_of(
                    w as int,
                    0,
                    col as int + 1,
                )) by (nonlinear_arith);
            }
            col = col + 1;
        }
        proof {
            lemma_idx_in_range(w as int, h as int, (w - 1) as int, (h - 1) as int);
            assert(idx_of(w as int, 0, h as int) == (w as int) * (h as int)) by (nonlinear_arith);
            assert(self.cells.back() =~= next);
        }

        // Swap the buffers, making the next generation cells current.
        self.cells.swap();
    }

    /// Returns the index into the cell buffers of the cell at the given
    /// point.
    fn index(&self, x: i32, y: i32) -> (r: usize)
        requires
            self.wf(),
            in_range(self.spec_width(), self.spec_height(), x as int, y as int),
        ensures
            r == idx_of(self.spec_width(), x as int, y as int),
            r < self.grid().len(),
    {
        proof {
            lemma_idx_in_range(self.spec_width(), self.spec_height(), x as int, y as int);
        }
        (self.stride * y + x) as usize
    }
}

impl Clone for World {
    /// A deep copy: same dimensions, with both generations' buffers copied
    /// cell for cell.
    fn clone(&self) -> (r: World)
        ensures
            r.spec_width() == self.spec_width(),
            r.spec_height() == self.spec_height(),
            r.grid() == self.grid(),
            self.wf() ==> r.wf(),
    {
        World { stride: self.stride, rows: self.rows, cells: self.cells.clone() }
    }
}

} // verus!
