//! Two-dimensional grids of tile cells, stored in `ndarray` arrays.
//!
//! A grid of shape `(w, h)` holds one cell for every index `(x, y)` with
//! `x < w` and `y < h`. Its contents are described by two names: the map
//! from index to cell, and the shape it was made with.
use vstd::prelude::*;
use vstd::layout::size_of;

use crate::autotile::AutoTile;
use crate::common::Tile;

verus! {

/// Whether `p` is an index of a grid of shape `(w, h)`.
pub open spec fn in_rect(p: (int, int), w: int, h: int) -> bool {
    0 <= p.0 < w && 0 <= p.1 < h
}

/// A grid of optional tiles: one map layer.
#[verifier::external_body]
pub struct TileGrid {
    cells: ndarray::Array2<Option<Tile>>,
}

/// What a tile grid holds, index by index.
pub uninterp spec fn tile_grid_cells(grid: TileGrid) -> Map<(int, int), Option<Tile>>;

/// The shape a tile grid was made with.
pub uninterp spec fn tile_grid_shape(grid: TileGrid) -> (nat, nat);

impl TileGrid {
    /// The cells of the grid.
    pub open spec fn cells(self) -> Map<(int, int), Option<Tile>> {
        tile_grid_cells(self)
    }

    pub open spec fn width(self) -> nat {
        tile_grid_shape(self).0
    }

    pub open spec fn height(self) -> nat {
        tile_grid_shape(self).1
    }

    /// Every index inside the shape holds a cell, and no other.
    pub open spec fn wf(self) -> bool {
        &&& self.cells().dom() == Set::new(|p: (int, int)| in_rect(p, self.width() as int, self.height() as int))
        &&& self.width() * self.height() <= isize::MAX
    }

    /// The cell at `(x, y)`, for an index inside the shape.
    pub open spec fn cell(self, x: int, y: int) -> Option<Tile> {
        self.cells()[(x, y)]
    }

    /// `Array2::default`: a grid of the given shape whose cells are all empty.
    /// ndarray panics when the element count overflows `isize`, and the
    /// allocation fails when the byte count does; `requires` leaves both out.
    #[verifier::external_body]
    pub(crate) fn new_empty(width: usize, height: usize) -> (g: TileGrid)
        requires
            width <= isize::MAX,
            height <= isize::MAX,
            width * height <= isize::MAX,
            width * height * size_of::<Option<Tile>>() <= isize::MAX,
        ensures
            tile_grid_shape(g) == (width as nat, height as nat),
            tile_grid_cells(g) == Map::new(|p: (int, int)| in_rect(p, width as int, height as int), |p: (int, int)| None::<Tile>),
    {
        TileGrid { cells: ndarray::Array2::default((width, height)) }
    }

    /// `ArrayBase::dim`: the shape of the grid. An ndarray holds its
    /// elements in one allocation, which never exceeds `isize::MAX` bytes.
    #[verifier::external_body]
    pub(crate) fn dim(&self) -> (r: (usize, usize))
        ensures
            r.0 == tile_grid_shape(*self).0,
            r.1 == tile_grid_shape(*self).1,
            r.0 * r.1 <= isize::MAX,
            r.0 * r.1 * size_of::<Option<Tile>>() <= isize::MAX,
    {
        self.cells.dim()
    }

    /// `ArrayBase::get`: the cell at `(x, y)`, or `None` outside the shape.
    #[verifier::external_body]
    pub(crate) fn lookup(&self, x: usize, y: usize) -> (r: Option<Option<Tile>>)
        ensures
            r == (if x < tile_grid_shape(*self).0 && y < tile_grid_shape(*self).1 {
                Some(tile_grid_cells(*self)[(x as int, y as int)])
            } else {
                None
            }),
    {
        self.cells.get((x, y)).copied()
    }

    /// The width and height of the grid.
    pub fn shape(&self) -> (r: (usize, usize))
        ensures
            r.0 == self.width(),
            r.1 == self.height(),
            r.0 * r.1 <= isize::MAX,
            r.0 * r.1 * size_of::<Option<Tile>>() <= isize::MAX,
    {
        self.dim()
    }

    /// The cell at `(x, y)`, or `None` when the grid has no such cell.
    pub fn get(&self, x: usize, y: usize) -> (r: Option<Option<Tile>>)
        ensures
            r == (if x < self.width() && y < self.height() {
                Some(self.cells()[(x as int, y as int)])
            } else {
                None
            }),
    {
        self.lookup(x, y)
    }

    /// `IndexMut` of ndarray: replaces the cell at `(x, y)`. ndarray panics
    /// on an index outside the shape; `requires` leaves it out.
    #[verifier::external_body]
    pub(crate) fn set(&mut self, x: usize, y: usize, value: Option<Tile>)
        requires
            x < tile_grid_shape(*old(self)).0,
            y < tile_grid_shape(*old(self)).1,
        ensures
            tile_grid_shape(*final(self)) == tile_grid_shape(*old(self)),
            tile_grid_cells(*final(self)) == tile_grid_cells(*old(self)).insert((x as int, y as int), value),
    {
        self.cells[(x, y)] = value;
    }

    /// `ArrayBase::fill`: every cell of the grid becomes `value`.
    #[verifier::external_body]
    pub(crate) fn fill(&mut self, value: Option<Tile>)
        ensures
            tile_grid_shape(*final(self)) == tile_grid_shape(*old(self)),
            tile_grid_cells(*final(self)) == Map::new(
                |p: (int, int)| in_rect(p, tile_grid_shape(*old(self)).0 as int, tile_grid_shape(*old(self)).1 as int),
                |p: (int, int)| value,
            ),
    {
        self.cells.fill(value);
    }
}

impl TileGrid {
    /// A grid of the given shape whose cells are all empty.
    pub fn new(width: usize, height: usize) -> (g: TileGrid)
        requires
            width <= isize::MAX,
            height <= isize::MAX,
            width * height <= isize::MAX,
            width * height * size_of::<Option<Tile>>() <= isize::MAX,
        ensures
            g.wf(),
            g.width() == width,
            g.height() == height,
            forall|p: (int, int)| in_rect(p, width as int, height as int) ==> #[trigger] g.cells()[p] == None::<Tile>,
    {
        let g = TileGrid::new_empty(width, height);
        assert(g.cells().dom() =~= Set::new(|p: (int, int)| in_rect(p, g.width() as int, g.height() as int)));
        g
    }

    /// An empty grid of the given shape, or `None` when it would not fit in
    /// memory (where making it would fail).
    pub fn try_new(width: usize, height: usize) -> (r: Option<TileGrid>)
        ensures
            r is Some <==> {
                &&& width <= isize::MAX
                &&& height <= isize::MAX
                &&& width * height <= isize::MAX
                &&& width * height * size_of::<Option<Tile>>() <= isize::MAX
            },
            r matches Some(g) ==> {
                &&& g.wf()
                &&& g.width() == width
                &&& g.height() == height
                &&& forall|p: (int, int)| in_rect(p, width as int, height as int) ==> #[trigger] g.cells()[p] == None::<Tile>
            },
    {
        let limit = isize::MAX as usize;
        let size = core::mem::size_of::<Option<Tile>>();
        if width > limit || height > limit {
            return None;
        }
        match width.checked_mul(height) {
            Some(cells) => {
                if cells > limit {
                    return None;
                }
                match cells.checked_mul(size) {
                    Some(bytes) => {
                        if bytes > limit {
                            None
                        } else {
                            Some(TileGrid::new(width, height))
                        }
                    },
                    None => None,
                }
            },
            None => None,
        }
    }

    /// Puts `value` in the cell at `(x, y)` when the grid has that cell, and
    /// tells whether it did.
    pub fn put(&mut self, x: usize, y: usize, value: Option<Tile>) -> (done: bool)
        requires
            old(self).wf(),
        ensures
            final(self).wf(),
            final(self).width() == old(self).width(),
            final(self).height() == old(self).height(),
            done == (x < old(self).width() && y < old(self).height()),
            final(self).cells() == (if done {
                old(self).cells().insert((x as int, y as int), value)
            } else {
                old(self).cells()
            }),
    {
        let (w, h) = self.shape();
        if x < w && y < h {
            self.set(x, y, value);
            assert(self.cells().dom() =~= old(self).cells().dom());
            true
        } else {
            false
        }
    }
}

/// A grid of optional autotile renderings, one per cell of a layer.
#[verifier::external_body]
pub struct AutoTileGrid {
    cells: ndarray::Array2<Option<AutoTile>>,
}

/// What an autotile grid holds, index by index.
pub uninterp spec fn autotile_grid_cells(grid: AutoTileGrid) -> Map<(int, int), Option<AutoTile>>;

/// The shape an autotile grid was made with.
pub uninterp spec fn autotile_grid_shape(grid: AutoTileGrid) -> (nat, nat);

impl AutoTileGrid {
    pub open spec fn cells(self) -> Map<(int, int), Option<AutoTile>> {
        autotile_grid_cells(self)
    }

    pub open spec fn width(self) -> nat {
        autotile_grid_shape(self).0
    }

    pub open spec fn height(self) -> nat {
        autotile_grid_shape(self).1
    }

    pub open spec fn wf(self) -> bool {
        &&& self.cells().dom() == Set::new(|p: (int, int)| in_rect(p, self.width() as int, self.height() as int))
        &&& self.width() * self.height() <= isize::MAX
    }

    /// `Array2::default`: a grid of the given shape whose cells are all empty.
    /// ndarray panics when the element count overflows `isize`, and the
    /// allocation fails when the byte count does; `requires` leaves both out.
    #[verifier::external_body]
    pub(crate) fn new_empty(width: usize, height: usize) -> (g: AutoTileGrid)
        requires
            width <= isize::MAX,
            height <= isize::MAX,
            width * height <= isize::MAX,
            width * height * size_of::<Option<AutoTile>>() <= isize::MAX,
        ensures
            autotile_grid_shape(g) == (width as nat, height as nat),
            autotile_grid_cells(g) == Map::new(|p: (int, int)| in_rect(p, width as int, height as int), |p: (int, int)| None::<AutoTile>),
    {
        AutoTileGrid { cells: ndarray::Array2::default((width, height)) }
    }

    /// `ArrayBase::dim`: the shape of the grid. An ndarray holds its
    /// elements in one allocation, which never exceeds `isize::MAX` bytes.
    #[verifier::external_body]
    pub(crate) fn dim(&self) -> (r: (usize, usize))
        ensures
            r.0 == autotile_grid_shape(*self).0,
            r.1 == autotile_grid_shape(*self).1,
            r.0 * r.1 <= isize::MAX,
            r.0 * r.1 * size_of::<Option<AutoTile>>() <= isize::MAX,
    {
        self.cells.dim()
    }

    /// `ArrayBase::get`: the cell at `(x, y)`, or `None` outside the shape.
    #[verifier::external_body]
    pub(crate) fn lookup(&self, x: usize, y: usize) -> (r: Option<Option<AutoTile>>)
        ensures
            r == (if x < autotile_grid_shape(*self).0 && y < autotile_grid_shape(*self).1 {
                Some(autotile_grid_cells(*self)[(x as int, y as int)])
            } else {
                None
            }),
    {
        self.cells.get((x, y)).copied()
    }

    /// The width and height of the grid.
    pub fn shape(&self) -> (r: (usize, usize))
        ensures
            r.0 == self.width(),
            r.1 == self.height(),
            r.0 * r.1 <= isize::MAX,
            r.0 * r.1 * size_of::<Option<AutoTile>>() <= isize::MAX,
    {
        self.dim()
    }

    /// The cell at `(x, y)`, or `None` when the grid has no such cell.
    pub fn get(&self, x: usize, y: usize) -> (r: Option<Option<AutoTile>>)
        ensures
            r == (if x < self.width() && y < self.height() {
                Some(self.cells()[(x as int, y as int)])
            } else {
                None
            }),
    {
        self.lookup(x, y)
    }

    /// `IndexMut` of ndarray: replaces the cell at `(x, y)`. ndarray panics
    /// on an index outside the shape; `requires` leaves it out.
    #[verifier::external_body]
    pub(crate) fn set(&mut self, x: usize, y: usize, value: Option<AutoTile>)
        requires
            x < autotile_grid_shape(*old(self)).0,
            y < autotile_grid_shape(*old(self)).1,
        ensures
            autotile_grid_shape(*final(self)) == autotile_grid_shape(*old(self)),
            autotile_grid_cells(*final(self)) == autotile_grid_cells(*old(self)).insert((x as int, y as int), value),
    {
        self.cells[(x, y)] = value;
    }
}

} // verus!
