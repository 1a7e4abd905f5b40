//! A flat tile grid: tile identifiers in row-major order, kept in one
//! contiguous vector.

use vstd::prelude::*;

verus! {

/// A grid of `width` by `height` tile identifiers.
pub struct TileMap {
    width: u32,
    height: u32,
    /// Flat map of tile identifiers, row-major, to be CPU cache friendly.
    pub cells: Vec<u32>,
}

/// Dimensions of the tiles a tile sheet is cut into.
#[allow(dead_code)]
pub struct TileSet {
    tile_size_x: u32,
    tile_size_y: u32,
    length: u32,
}

#[allow(dead_code)]
impl TileSet {
    fn new() -> (t: TileSet)
        ensures
            t.tile_size_x == 0,
            t.tile_size_y == 0,
            t.length == 0,
    {
        TileSet { tile_size_x: 0, tile_size_y: 0, length: 0 }
    }
}

impl TileMap {
    /// The backing vector holds exactly one cell per grid position.
    pub closed spec fn wf(&self) -> bool {
        self.cells@.len() == self.width * self.height
    }

    /// The cell at `(x, y)`.
    pub closed spec fn cell_at(&self, x: int, y: int) -> u32 {
        self.cells@[y * self.width + x]
    }

    pub closed spec fn spec_width(&self) -> u32 {
        self.width
    }

    pub closed spec fn spec_height(&self) -> u32 {
        self.height
    }

    /// A grid of the given dimensions with every cell zero.
    pub fn new(width: u32, height: u32) -> (t: TileMap)
        requires
            width * height <= usize::MAX,
        ensures
            t.wf(),
            t.spec_width() == width,
            t.spec_height() == height,
            forall|x: int, y: int|
                0 <= x < width && 0 <= y < height ==> #[trigger] t.cell_at(x, y) == 0,
    {
        let total: usize = (width as usize) * (height as usize);
        let mut cells: Vec<u32> = Vec::new();
        let mut i: usize = 0;
        while i < total
            invariant
                i <= total,
                cells@.len() == i,
                forall|k: int| 0 <= k < i ==> cells@[k] == 0,
            decreases total - i,
        {
            cells.push(0);
            i = i + 1;
        }
        let t = TileMap { width, height, cells };
        proof {
            assert forall|x: int, y: int|
                0 <= x < width && 0 <= y < height implies #[trigger] t.cell_at(x, y) == 0 by {
                assert(0 <= y * width + x < width * height) by (nonlinear_arith)
                    requires
                        0 <= x < width,
                        0 <= y < height,
                ;
            }
        }
        t
    }

    /// The tile identifier stored at `(x, y)`.
    pub fn get_cell(&self, x: u32, y: u32) -> (v: u32)
        requires
            self.wf(),
            x < self.spec_width(),
            y < self.spec_height(),
        ensures
            v == self.cell_at(x as int, y as int),
    {
        proof {
            assert(0 <= (y as int) * (self.width as int) + (x as int) < (self.width as int) * (
            self.height as int)) by (nonlinear_arith)
                requires
                    0 <= x < self.width,
                    0 <= y < self.height,
            ;
            assert(self.cells.len() == self.cells@.len());
        }
        self.cells[(y as usize) * (self.width as usize) + (x as usize)]
    }

    /// Store `value` at `(x, y)`; every other cell keeps its value.
    pub fn set_cell(&mut self, x: u32, y: u32, value: u32)
        requires
            old(self).wf(),
            x < old(self).spec_width(),
            y < old(self).spec_height(),
        ensures
            final(self).wf(),
            final(self).spec_width() == old(self).spec_width(),
            final(self).spec_height() == old(self).spec_height(),
            final(self).cell_at(x as int, y as int) == value,
            forall|px: int, py: int|
                0 <= px < old(self).spec_width() && 0 <= py < old(self).spec_height() && !(px == x
                    && py == y) ==> #[trigger] final(self).cell_at(px, py) == old(self).cell_at(
                    px,
                    py,
                ),
    {
        proof {
            assert(0 <= (y as int) * (self.width as int) + (x as int) < (self.width as int) * (
            self.height as int)) by (nonlinear_arith)
                requires
                    0 <= x < self.width,
                    0 <= y < self.height,
            ;
            assert(self.cells.len() == self.cells@.len());
        }
        self.cells[(y as usize) * (self.width as usize) + (x as usize)] = value;
        proof {
            assert forall|px: int, py: int|
                0 <= px < old(self).spec_width() && 0 <= py < old(self).spec_height() && !(px == x
                    && py == y) implies #[trigger] self.cell_at(px, py) == old(self).cell_at(
                px,
                py,
            ) by {
                assert(py * self.width + px != y * self.width + x && 0 <= py * self.width + px
                    < self.width * self.height) by (nonlinear_arith)
                    requires
                        0 <= px < self.width,
                        0 <= py < self.height,
                        0 <= x < self.width,
                        0 <= y < self.height,
                        !(px == x && py == y),
                ;
            }
        }
    }

    pub fn get_width(&self) -> (w: u32)
        ensures
            w == self.spec_width(),
    {
        self.width
    }

    pub fn get_height(&self) -> (h: u32)
        ensures
            h == self.spec_height(),
    {
        self.height
    }
}

} // verus!
