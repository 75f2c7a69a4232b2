use vstd::prelude::*;
use crate::sprite::Sprite;

verus! {

/// What a level holds, as mathematical values.
pub struct LevelView {
    pub width: u32,
    pub height: u32,
    /// The tiles, row after row: cell `(x, y)` is at `y * width + x`.
    pub cells: Seq<u8>,
    pub spawnx: u64,
    pub spawny: u64,
    pub sprites: Seq<Sprite>,
}

impl LevelView {
    /// One tile per cell of the grid.
    pub open spec fn wf(self) -> bool {
        self.cells.len() == self.width * self.height
    }

    pub open spec fn in_bounds(self, x: int, y: int) -> bool {
        0 <= x < self.width && 0 <= y < self.height
    }

    /// The level with tile `t` at `(x, y)`; unchanged when `(x, y)` lies
    /// outside the grid.
    pub open spec fn with_tile(self, x: int, y: int, t: u8) -> LevelView {
        if self.in_bounds(x, y) {
            LevelView { cells: self.cells.update(y * self.width + x, t), ..self }
        } else {
            self
        }
    }

    /// The tile at `(x, y)`; every cell outside the grid reads as empty.
    pub open spec fn tile(self, x: int, y: int) -> u8 {
        if self.in_bounds(x, y) {
            self.cells[y * self.width + x]
        } else {
            0
        }
    }
}

/// A tile grid with the player's spawn point and the sprites placed in it.
/// Tile 0 is open space; any other id is a wall material.
pub struct Level {
    width: u32,
    height: u32,
    level_data: Vec<u8>,
    spawnx: u64,
    spawny: u64,
    sprites: Vec<Sprite>,
}

impl View for Level {
    type V = LevelView;

    closed spec fn view(&self) -> LevelView {
        LevelView {
            width: self.width,
            height: self.height,
            cells: self.level_data@,
            spawnx: self.spawnx,
            spawny: self.spawny,
            sprites: self.sprites@,
        }
    }
}

proof fn lemma_cell_index(x: int, y: int, w: int, h: int)
    requires
        0 <= x < w,
        0 <= y < h,
    ensures
        0 <= y * w + x < w * h,
        0 <= w * y <= w * y + x,
        w * y == y * w,
{
    assert(y * w + x < w * h) by (nonlinear_arith)
        requires
            0 <= x < w,
            0 <= y < h,
    ;
    assert(0 <= y * w) by (nonlinear_arith)
        requires
            0 <= y,
            0 <= w,
    ;
    assert(w * y == y * w) by (nonlinear_arith);
}

impl Level {
    /// An empty grid of `w` by `h` tiles, spawn at the origin, no sprites.
    pub fn new(w: u32, h: u32) -> (r: Level)
        requires
            w * h <= usize::MAX,
        ensures
            r@.wf(),
            r@.width == w,
            r@.height == h,
            forall|x: int, y: int| #[trigger] r@.tile(x, y) == 0,
            r@.spawnx == 0,
            r@.spawny == 0,
            r@.sprites.len() == 0,
    {
        let n: usize = (w as usize) * (h as usize);
        let level_data: Vec<u8> = vec![0u8; n];
        let r = Level { width: w, height: h, level_data, spawnx: 0, spawny: 0, sprites: Vec::new() };
        assert forall|x: int, y: int| #[trigger] r@.tile(x, y) == 0 by {
            if r@.in_bounds(x, y) {
                lemma_cell_index(x, y, w as int, h as int);
            }
        }
        r
    }

    /// A level made of a grid given row after row, a spawn point and sprites.
    pub fn from_parts(
        w: u32,
        h: u32,
        cells: Vec<u8>,
        spawnx: u64,
        spawny: u64,
        sprites: Vec<Sprite>,
    ) -> (r: Level)
        requires
            cells@.len() == w * h,
        ensures
            r@ == (LevelView {
                width: w,
                height: h,
                cells: cells@,
                spawnx,
                spawny,
                sprites: sprites@,
            }),
    {
        Level { width: w, height: h, level_data: cells, spawnx, spawny, sprites }
    }

    pub fn width(&self) -> (r: u32)
        ensures
            r == self@.width,
    {
        self.width
    }

    pub fn height(&self) -> (r: u32)
        ensures
            r == self@.height,
    {
        self.height
    }

    /// Encoding (IEEE-754 binary64) of the spawn point's x coordinate.
    pub fn spawnx(&self) -> (r: u64)
        ensures
            r == self@.spawnx,
    {
        self.spawnx
    }

    /// Encoding (IEEE-754 binary64) of the spawn point's y coordinate.
    pub fn spawny(&self) -> (r: u64)
        ensures
            r == self@.spawny,
    {
        self.spawny
    }

    /// Moves the spawn point.
    pub fn set_spawn(&mut self, x: u64, y: u64)
        ensures
            final(self)@ == (LevelView { spawnx: x, spawny: y, ..old(self)@ }),
    {
        self.spawnx = x;
        self.spawny = y;
    }

    /// The sprites, in the order they were placed.
    pub fn sprites(&self) -> (r: &Vec<Sprite>)
        ensures
            r@ == self@.sprites,
    {
        &self.sprites
    }

    pub fn out_of_bounds(&self, x: isize, y: isize) -> (r: bool)
        ensures
            r == !self@.in_bounds(x as int, y as int),
    {
        x < 0 || y < 0 || x as i64 >= self.width as i64 || y as i64 >= self.height as i64
    }

    /// The tile at `(x, y)`, 0 outside the grid.
    pub fn get_tile(&self, x: isize, y: isize) -> (r: u8)
        requires
            self@.wf(),
        ensures
            r == self@.tile(x as int, y as int),
    {
        if self.out_of_bounds(x, y) {
            return 0;
        }
        proof {
            lemma_cell_index(x as int, y as int, self.width as int, self.height as int);
        }
        let len: usize = self.level_data.len();
        assert(len == self.width * self.height);
        self.level_data[(self.width as usize) * (y as usize) + (x as usize)]
    }

    /// Puts `tile` at `(x, y)`; outside the grid nothing changes.
    pub fn set_tile(&mut self, x: isize, y: isize, tile: u8)
        requires
            old(self)@.wf(),
        ensures
            final(self)@.wf(),
            final(self)@.width == old(self)@.width,
            final(self)@.height == old(self)@.height,
            final(self)@.spawnx == old(self)@.spawnx,
            final(self)@.spawny == old(self)@.spawny,
            final(self)@.sprites == old(self)@.sprites,
            forall|i: int, j: int|
                #[trigger] final(self)@.tile(i, j) == (if i == x && j == y
                    && old(self)@.in_bounds(i, j) {
                    tile
                } else {
                    old(self)@.tile(i, j)
                }),
            !old(self)@.in_bounds(x as int, y as int) ==> final(self)@ == old(self)@,
            final(self)@ == old(self)@.with_tile(x as int, y as int, tile),
    {
        if self.out_of_bounds(x, y) {
            return;
        }
        let ghost w = self.width as int;
        let ghost h = self.height as int;
        proof {
            lemma_cell_index(x as int, y as int, w, h);
        }
        let len: usize = self.level_data.len();
        assert(len == w * h);
        let idx: usize = (self.width as usize) * (y as usize) + (x as usize);
        self.level_data.set(idx, tile);
        assert forall|i: int, j: int| #[trigger]
            self@.tile(i, j) == (if i == x && j == y && old(self)@.in_bounds(i, j) {
                tile
            } else {
                old(self)@.tile(i, j)
            }) by {
            if old(self)@.in_bounds(i, j) {
                lemma_cell_index(i, j, w, h);
                if !(i == x && j == y) {
                    lemma_distinct_cells(i, j, x as int, y as int, w);
                }
            }
        }
    }

    /// The grid's tiles, row after row.
    pub fn level_data_bytes(&self) -> (r: &[u8])
        ensures
            r@ == self@.cells,
    {
        self.level_data.as_slice()
    }

    /// Adds a sprite after those already placed.
    pub fn place_sprite(&mut self, spr: Sprite)
        ensures
            final(self)@ == (LevelView { sprites: old(self)@.sprites.push(spr), ..old(self)@ }),
    {
        self.sprites.push(spr);
    }

    /// Takes out the sprite at `index`, keeping the order of the others.
    pub fn remove_sprite(&mut self, index: usize)
        requires
            index < old(self)@.sprites.len(),
        ensures
            final(self)@ == (LevelView {
                sprites: old(self)@.sprites.remove(index as int),
                ..old(self)@
            }),
    {
        self.sprites.remove(index);
    }
}

proof fn lemma_distinct_cells(i: int, j: int, x: int, y: int, w: int)
    requires
        0 <= i < w,
        0 <= x < w,
        !(i == x && j == y),
    ensures
        j * w + i != y * w + x,
{
    if j == y {
    } else if j < y {
        assert(j * w + i < y * w + x) by (nonlinear_arith)
            requires
                j < y,
                0 <= i < w,
                0 <= x,
        ;
    } else {
        assert(j * w + i > y * w + x) by (nonlinear_arith)
            requires
                j > y,
                0 <= x < w,
                0 <= i,
        ;
    }
}

/// Every cell just outside the grid, on each of its four sides, reads as
/// empty whatever the grid holds, and writing any tile there leaves the
/// level as it was.
pub proof fn lemma_border_reads_empty(v: LevelView, t: u8)
    ensures
        v.tile(-1, 0) == 0,
        v.tile(v.width as int, 0) == 0,
        v.tile(0, -1) == 0,
        v.tile(0, v.height as int) == 0,
        v.with_tile(-1, 0, t) == v,
        v.with_tile(v.width as int, 0, t) == v,
        v.with_tile(0, -1, t) == v,
        v.with_tile(0, v.height as int, t) == v,
{
}

} // verus!
