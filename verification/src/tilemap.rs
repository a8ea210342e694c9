//! The tile part of a map as the client keeps it: one grid of tiles per
//! layer, and beside each layer the cached rendering of its autotiles.
use vstd::prelude::*;
use vstd::layout::size_of;

use crate::autotile::{bit_weight, offset, quarters_fit, spec_offset, AutoTile};
use crate::common::{MapLayer, Point2, Tile, LAYER_COUNT};
use crate::grid::{in_rect, AutoTileGrid, TileGrid};

verus! {

/// Renders every autotile of a layer.
fn autotiles_for(grid: &TileGrid) -> (a: AutoTileGrid)
    requires
        grid.wf(),
        grid_fits(grid.width() as int, grid.height() as int),
        grid_renders(*grid),
    ensures
        a.wf(),
        a.width() == grid.width(),
        a.height() == grid.height(),
        a.cells() == autotiles_of(*grid),
{
    let (w, h) = grid.shape();
    let mut a = AutoTileGrid::new_empty(w, h);
    assert(a.cells() =~= partial_autotiles(*grid, 0, 0));
    let mut x: usize = 0;
    while x < w
        invariant
            x <= w,
            w == grid.width(),
            h == grid.height(),
            grid.wf(),
            grid_renders(*grid),
            a.width() == w,
            a.height() == h,
            a.cells() == partial_autotiles(*grid, x as int, 0),
        decreases w - x,
    {
        let mut y: usize = 0;
        while y < h
            invariant
                x < w,
                y <= h,
                w == grid.width(),
                h == grid.height(),
                grid.wf(),
                grid_renders(*grid),
                a.width() == w,
                a.height() == h,
                a.cells() == partial_autotiles(*grid, x as int, y as int),
            decreases h - y,
        {
            let cell = grid.get(x, y);
            let ghost p = (x as int, y as int);
            assert(grid.cells()[p] == grid.cells()[(x as int, y as int)]);
            match cell {
                Some(Some(tile)) => {
                    if tile.autotile {
                        assert(renders_in(grid.cells(), grid.width() as int, grid.height() as int, x as int, y as int, tile.texture));
                        let base = Point2 { x: tile.texture.x * 2, y: tile.texture.y * 2 };
                        let m = neighbor_mask_at(grid, x, y, tile.texture);
                        let t = AutoTile::new(base, m);
                        a.set(x, y, Some(t));
                    }
                },
                _ => {},
            }
            assert(a.cells() =~= partial_autotiles(*grid, x as int, y as int + 1));
            y = y + 1;
        }
        assert(a.cells() =~= partial_autotiles(*grid, x as int + 1, 0));
        x = x + 1;
    }
    assert(a.cells() =~= autotiles_of(*grid));
    assert(a.cells().dom() =~= Set::new(|p: (int, int)| in_rect(p, a.width() as int, a.height() as int)));
    a
}

/// The cell of `source` at `p`, or nothing when `source` has no such cell.
pub open spec fn kept_cell(source: TileGrid, p: (int, int)) -> Option<Tile> {
    if in_rect(p, source.width() as int, source.height() as int) {
        source.cells()[p]
    } else {
        None
    }
}

/// The cells of `source` inside the `w` by `h` rectangle that come before
/// `(x, y)` in row order; later cells are empty.
pub open spec fn copied_prefix(source: TileGrid, w: int, h: int, x: int, y: int) -> Map<(int, int), Option<Tile>> {
    Map::new(
        |p: (int, int)| in_rect(p, w, h),
        |p: (int, int)| if p.0 < x || (p.0 == x && p.1 < y) {
            kept_cell(source, p)
        } else {
            None
        },
    )
}

/// A grid of the given shape holding the cells of `source` at the same
/// indices, and nothing where `source` has no cell.
fn resized_grid(source: &TileGrid, w: usize, h: usize) -> (g: TileGrid)
    requires
        source.wf(),
        grid_fits(w as int, h as int),
    ensures
        g.wf(),
        g.width() == w,
        g.height() == h,
        forall|p: (int, int)| in_rect(p, w as int, h as int) ==> #[trigger] g.cells()[p] == kept_cell(*source, p),
{
    let mut g = TileGrid::new_empty(w, h);
    assert(g.cells() =~= copied_prefix(*source, w as int, h as int, 0, 0));
    let mut x: usize = 0;
    while x < w
        invariant
            x <= w,
            source.wf(),
            g.width() == w,
            g.height() == h,
            g.cells() == copied_prefix(*source, w as int, h as int, x as int, 0),
        decreases w - x,
    {
        let mut y: usize = 0;
        while y < h
            invariant
                x < w,
                y <= h,
                source.wf(),
                g.width() == w,
                g.height() == h,
                g.cells() == copied_prefix(*source, w as int, h as int, x as int, y as int),
            decreases h - y,
        {
            let cell = match source.get(x, y) {
                Some(c) => c,
                None => None,
            };
            g.set(x, y, cell);
            assert(g.cells() =~= copied_prefix(*source, w as int, h as int, x as int, y as int + 1));
            y = y + 1;
        }
        assert(g.cells() =~= copied_prefix(*source, w as int, h as int, x as int + 1, 0));
        x = x + 1;
    }
    assert(g.cells().dom() =~= Set::new(|p: (int, int)| in_rect(p, g.width() as int, g.height() as int)));
    g
}

/// Why a map received from the server cannot be used.
#[derive(Clone, Copy, Debug, PartialEq, Eq, Structural)]
pub enum MapError {
    /// A layer's size differs from the map's.
    IncorrectSize,
    /// The map does not hold every layer.
    IncorrectLayers,
}

/// Whether grids of the given shape can be allocated.
pub open spec fn grid_fits(width: int, height: int) -> bool {
    &&& 0 <= width <= isize::MAX
    &&& 0 <= height <= isize::MAX
    &&& width * height <= isize::MAX
    &&& width * height * size_of::<Option<Tile>>() <= isize::MAX
    &&& width * height * size_of::<Option<AutoTile>>() <= isize::MAX
}

/// Whether a map of `width` by `height` cells fits in memory, that is
/// whether `grid_fits` holds; the sizes of the cells are read from the
/// compiler.
pub fn fits_in_memory(width: u32, height: u32) -> (r: bool)
    ensures
        r == grid_fits(width as int, height as int),
{
    let tile_size = core::mem::size_of::<Option<Tile>>();
    let autotile_size = core::mem::size_of::<Option<AutoTile>>();
    assert((width as u128) * (height as u128) <= 0xffff_ffff_ffff_ffffu128) by (nonlinear_arith)
        requires
            width <= 0xffff_ffffu32,
            height <= 0xffff_ffffu32,
    ;
    let cells: u128 = (width as u128) * (height as u128);
    let limit: u128 = isize::MAX as u128;
    if cells > limit || width as u128 > limit || height as u128 > limit {
        return false;
    }
    assert(cells * (tile_size as u128) <= 0xffff_ffff_ffff_ffff_ffff_ffff_ffff_ffffu128) by (nonlinear_arith)
        requires
            cells <= 0xffff_ffff_ffff_ffffu128,
            tile_size <= 0xffff_ffff_ffff_ffffu128,
    ;
    assert(cells * (autotile_size as u128) <= 0xffff_ffff_ffff_ffff_ffff_ffff_ffff_ffffu128) by (nonlinear_arith)
        requires
            cells <= 0xffff_ffff_ffff_ffffu128,
            autotile_size <= 0xffff_ffff_ffff_ffffu128,
    ;
    let tile_bytes: u128 = cells * (tile_size as u128);
    let autotile_bytes: u128 = cells * (autotile_size as u128);
    assert(limit as int == isize::MAX as int);
    assert(cells as int == width as int * height as int);
    assert(tile_size as int == size_of::<Option<Tile>>());
    assert(autotile_size as int == size_of::<Option<AutoTile>>());
    assert(tile_bytes as int == width as int * height as int * size_of::<Option<Tile>>());
    assert(autotile_bytes as int == width as int * height as int * size_of::<Option<AutoTile>>());
    tile_bytes <= limit && autotile_bytes <= limit
}

/// The texture that takes part in autotiling, if the cell holds an autotile.
pub open spec fn autotile_texture(cell: Option<Tile>) -> Option<Point2> {
    match cell {
        Some(tile) => if tile.autotile {
            Some(tile.texture)
        } else {
            None
        },
        None => None,
    }
}

/// Whether neighbour `i` of cell `(x, y)`, in a layer of `w` by `h` cells
/// holding `cells`, counts as the same autotile as `texture`: it does when
/// it holds an autotile of that texture, and when it lies outside the layer
/// (an autotile looks best continued past the edge).
pub open spec fn neighbor_matches_in(
    cells: Map<(int, int), Option<Tile>>,
    w: int,
    h: int,
    x: int,
    y: int,
    texture: Point2,
    i: int,
) -> bool {
    let q = (x + spec_offset(i).0, y + spec_offset(i).1);
    !in_rect(q, w, h) || autotile_texture(cells[q]) == Some(texture)
}

/// The bits of the first `n` neighbours that match.
pub open spec fn mask_upto_in(
    cells: Map<(int, int), Option<Tile>>,
    w: int,
    h: int,
    x: int,
    y: int,
    texture: Point2,
    n: nat,
) -> int
    decreases n,
{
    if n == 0 {
        0
    } else {
        mask_upto_in(cells, w, h, x, y, texture, (n - 1) as nat) + if neighbor_matches_in(cells, w, h, x, y, texture, n - 1) {
            bit_weight(n - 1)
        } else {
            0
        }
    }
}

/// The set of matching neighbours of cell `(x, y)` in a layer of `w` by `h`
/// cells holding `cells`.
pub open spec fn neighbor_mask_in(cells: Map<(int, int), Option<Tile>>, w: int, h: int, x: int, y: int, texture: Point2) -> u8 {
    mask_upto_in(cells, w, h, x, y, texture, 8) as u8
}

/// Whether neighbour `i` of cell `(x, y)` of `grid` matches `texture`.
pub open spec fn neighbor_matches(grid: TileGrid, x: int, y: int, texture: Point2, i: int) -> bool {
    neighbor_matches_in(grid.cells(), grid.width() as int, grid.height() as int, x, y, texture, i)
}

/// The bits of the first `n` neighbours of cell `(x, y)` of `grid` that match.
pub open spec fn mask_upto(grid: TileGrid, x: int, y: int, texture: Point2, n: nat) -> int {
    mask_upto_in(grid.cells(), grid.width() as int, grid.height() as int, x, y, texture, n)
}

/// The largest value the bits of the first `n` neighbours can take.
pub open spec fn mask_cap(n: int) -> int {
    if n == 0 {
        0
    } else {
        2 * bit_weight(n - 1) - 1
    }
}

/// The set of matching neighbours of cell `(x, y)` of `grid`.
pub open spec fn neighbor_mask(grid: TileGrid, x: int, y: int, texture: Point2) -> u8 {
    neighbor_mask_in(grid.cells(), grid.width() as int, grid.height() as int, x, y, texture)
}

/// The rendering of cell `(x, y)`: for an autotile, its quarters taken from
/// the sheet at twice its texture position, chosen by its neighbours.
pub open spec fn expected_autotile(grid: TileGrid, x: int, y: int) -> Option<AutoTile> {
    match autotile_texture(grid.cells()[(x, y)]) {
        Some(t) => Some(
            AutoTile::spec_new(Point2 { x: (2 * t.x) as i32, y: (2 * t.y) as i32 }, neighbor_mask(grid, x, y, t)),
        ),
        None => None,
    }
}

/// The renderings of every cell of a layer.
pub open spec fn autotiles_of(grid: TileGrid) -> Map<(int, int), Option<AutoTile>> {
    Map::new(
        |p: (int, int)| in_rect(p, grid.width() as int, grid.height() as int),
        |p: (int, int)| expected_autotile(grid, p.0, p.1),
    )
}

/// Whether the autotile of texture `t` at `(x, y)` can be rendered in
/// `i32` coordinates: twice its texture position fits, and so does each of
/// the four quarters its neighbours select.
pub open spec fn renders_in(cells: Map<(int, int), Option<Tile>>, w: int, h: int, x: int, y: int, t: Point2) -> bool {
    &&& i32::MIN <= 2 * t.x <= i32::MAX
    &&& i32::MIN <= 2 * t.y <= i32::MAX
    &&& quarters_fit(Point2 { x: (2 * t.x) as i32, y: (2 * t.y) as i32 }, neighbor_mask_in(cells, w, h, x, y, t))
}

/// Whether every autotile of a layer of `w` by `h` cells holding `cells`
/// can be rendered.
pub open spec fn layer_renders(cells: Map<(int, int), Option<Tile>>, w: int, h: int) -> bool {
    forall|p: (int, int)|
        #![trigger cells[p]]
        in_rect(p, w, h) ==> match autotile_texture(cells[p]) {
            Some(t) => renders_in(cells, w, h, p.0, p.1, t),
            None => true,
        }
}

/// Whether every autotile of `grid` can be rendered.
pub open spec fn grid_renders(grid: TileGrid) -> bool {
    layer_renders(grid.cells(), grid.width() as int, grid.height() as int)
}

/// The cells of `source` in a layer resized to `w` by `h`: the old cell
/// where `source` has one, nothing elsewhere.
pub open spec fn resized_cells(source: TileGrid, w: int, h: int) -> Map<(int, int), Option<Tile>> {
    Map::new(|p: (int, int)| in_rect(p, w, h), |p: (int, int)| kept_cell(source, p))
}

/// The renderings of the cells of a layer that come before `(x, y)` in
/// row order; later cells are empty.
pub open spec fn partial_autotiles(grid: TileGrid, x: int, y: int) -> Map<(int, int), Option<AutoTile>> {
    Map::new(
        |p: (int, int)| in_rect(p, grid.width() as int, grid.height() as int),
        |p: (int, int)| if p.0 < x || (p.0 == x && p.1 < y) {
            expected_autotile(grid, p.0, p.1)
        } else {
            None
        },
    )
}

/// The bit that stands for neighbour `i`.
fn weight(i: usize) -> (w: u8)
    requires
        i < 8,
    ensures
        w == bit_weight(i as int),
{
    if i == 0 {
        1
    } else if i == 1 {
        2
    } else if i == 2 {
        4
    } else if i == 3 {
        8
    } else if i == 4 {
        16
    } else if i == 5 {
        32
    } else if i == 6 {
        64
    } else {
        128
    }
}

/// The set of neighbours of `(x, y)` that hold an autotile of `texture` or
/// lie outside the grid.
fn neighbor_mask_at(grid: &TileGrid, x: usize, y: usize, texture: Point2) -> (m: u8)
    requires
        grid.wf(),
        x < grid.width(),
        y < grid.height(),
    ensures
        m == neighbor_mask(*grid, x as int, y as int, texture),
{
    assert(grid.width() <= grid.width() * grid.height() && grid.height() <= grid.width() * grid.height())
        by (nonlinear_arith)
        requires
            grid.width() >= 1,
            grid.height() >= 1,
    ;
    let mut m: u8 = 0;
    let mut i: usize = 0;
    while i < 8
        invariant
            i <= 8,
            grid.wf(),
            grid.width() <= isize::MAX,
            grid.height() <= isize::MAX,
            x < grid.width(),
            y < grid.height(),
            m as int == mask_upto(*grid, x as int, y as int, texture, i as nat),
            0 <= m as int <= mask_cap(i as int),
        decreases 8 - i,
    {
        let (dx, dy) = offset(i);
        let matches = if (dx < 0 && x == 0) || (dy < 0 && y == 0) {
            true
        } else {
            let nx: usize = if dx < 0 {
                x - 1
            } else {
                x + dx as usize
            };
            let ny: usize = if dy < 0 {
                y - 1
            } else {
                y + dy as usize
            };
            match grid.get(nx, ny) {
                None => true,
                Some(cell) => match cell {
                    Some(tile) => tile.autotile && tile.texture == texture,
                    None => false,
                },
            }
        };
        if matches {
            m = m + weight(i);
        }
        i = i + 1;
    }
    m
}

/// `after` is `before` with `value` put in the cell at `pos` of `layer`,
/// when that cell exists; nothing else differs.
pub open spec fn replaced(before: TileMap, after: TileMap, layer: MapLayer, pos: Point2, value: Option<Tile>) -> bool {
    &&& after.spec_width() == before.spec_width()
    &&& after.spec_height() == before.spec_height()
    &&& forall|l: MapLayer| l != layer ==> #[trigger] after.layer(l) == before.layer(l)
    &&& forall|l: MapLayer| #[trigger] after.autotile_layer(l) == before.autotile_layer(l)
    &&& after.layer(layer).cells() == (if before.contains(pos.x as int, pos.y as int) {
        before.layer(layer).cells().insert((pos.x as int, pos.y as int), value)
    } else {
        before.layer(layer).cells()
    })
}

/// Whether a received layer is present and has the map's size.
pub open spec fn layer_sized(layer: Option<TileGrid>, width: int, height: int) -> bool {
    match layer {
        Some(g) => g.width() == width && g.height() == height,
        None => false,
    }
}

/// Whether every received layer is present and has the map's size.
pub open spec fn all_layers_sized(layers: Seq<Option<TileGrid>>, width: int, height: int) -> bool {
    forall|i: int| 0 <= i < LAYER_COUNT ==> layer_sized(#[trigger] layers[i], width, height)
}

/// The tiles of a map, layer by layer, with the rendering of its autotiles.
pub struct TileMap {
    width: u32,
    height: u32,
    layers: Vec<TileGrid>,
    autotiles: Vec<AutoTileGrid>,
}

impl TileMap {
    pub closed spec fn spec_width(self) -> nat {
        self.width as nat
    }

    pub closed spec fn spec_height(self) -> nat {
        self.height as nat
    }

    /// The grid of one layer.
    pub closed spec fn layer(self, layer: MapLayer) -> TileGrid {
        self.layers@[layer.spec_index()]
    }

    /// The cached autotile renderings of one layer.
    pub closed spec fn autotile_layer(self, layer: MapLayer) -> AutoTileGrid {
        self.autotiles@[layer.spec_index()]
    }

    /// The tile in cell `(x, y)` of a layer.
    pub open spec fn cell(self, layer: MapLayer, x: int, y: int) -> Option<Tile> {
        self.layer(layer).cells()[(x, y)]
    }

    /// What `tile` reads at `pos` in a layer.
    pub open spec fn tile_at(self, layer: MapLayer, pos: Point2) -> Option<Tile> {
        if self.contains(pos.x as int, pos.y as int) {
            self.cell(layer, pos.x as int, pos.y as int)
        } else {
            None
        }
    }

    /// Whether `(x, y)` is a cell of the map.
    pub open spec fn contains(self, x: int, y: int) -> bool {
        in_rect((x, y), self.spec_width() as int, self.spec_height() as int)
    }

    /// Every layer and every autotile cache is a grid of the map's size.
    pub closed spec fn wf(self) -> bool {
        &&& self.layers@.len() == LAYER_COUNT
        &&& self.autotiles@.len() == LAYER_COUNT
        &&& grid_fits(self.width as int, self.height as int)
        &&& forall|i: int|
            #![trigger self.layers@[i]]
            0 <= i < LAYER_COUNT ==> {
                &&& self.layers@[i].wf()
                &&& self.layers@[i].width() == self.width
                &&& self.layers@[i].height() == self.height
            }
        &&& forall|i: int|
            #![trigger self.autotiles@[i]]
            0 <= i < LAYER_COUNT ==> {
                &&& self.autotiles@[i].wf()
                &&& self.autotiles@[i].width() == self.width
                &&& self.autotiles@[i].height() == self.height
            }
    }

    /// The autotile cache of every layer is the rendering of that layer.
    pub open spec fn autotiles_current(self) -> bool {
        forall|l: MapLayer| #[trigger] self.autotile_layer(l).cells() == autotiles_of(self.layer(l))
    }

    /// Every layer and every cache has the map's size.
    pub proof fn lemma_wf(self, layer: MapLayer)
        requires
            self.wf(),
        ensures
            self.layer(layer).wf(),
            self.layer(layer).width() == self.spec_width(),
            self.layer(layer).height() == self.spec_height(),
            self.autotile_layer(layer).wf(),
            self.autotile_layer(layer).width() == self.spec_width(),
            self.autotile_layer(layer).height() == self.spec_height(),
            grid_fits(self.spec_width() as int, self.spec_height() as int),
    {
        let i = layer.spec_index();
        assert(self.layers@[i].wf());
        assert(self.autotiles@[i].wf());
    }

    /// Width of the map, in tiles.
    pub fn width(&self) -> (w: u32)
        ensures
            w == self.spec_width(),
    {
        self.width
    }

    /// Height of the map, in tiles.
    pub fn height(&self) -> (h: u32)
        ensures
            h == self.spec_height(),
    {
        self.height
    }

    /// An empty map of the given size, or `None` when it would not fit in
    /// memory (where making it would fail).
    pub fn try_new(width: u32, height: u32) -> (r: Option<TileMap>)
        ensures
            r is Some <==> grid_fits(width as int, height as int),
            r matches Some(map) ==> {
                &&& map.wf()
                &&& map.spec_width() == width
                &&& map.spec_height() == height
                &&& forall|l: MapLayer, x: int, y: int| map.contains(x, y) ==> #[trigger] map.cell(l, x, y) == None::<Tile>
                &&& map.autotiles_current()
            },
    {
        if fits_in_memory(width, height) {
            Some(TileMap::new(width, height))
        } else {
            None
        }
    }

    /// A map of the given size whose cells are all empty.
    pub fn new(width: u32, height: u32) -> (map: TileMap)
        requires
            grid_fits(width as int, height as int),
        ensures
            map.wf(),
            map.spec_width() == width,
            map.spec_height() == height,
            forall|l: MapLayer, x: int, y: int| map.contains(x, y) ==> #[trigger] map.cell(l, x, y) == None::<Tile>,
            map.autotiles_current(),
    {
        let w = width as usize;
        let h = height as usize;
        let mut layers: Vec<TileGrid> = Vec::new();
        let mut autotiles: Vec<AutoTileGrid> = Vec::new();
        let mut i: usize = 0;
        while i < LAYER_COUNT
            invariant
                i <= LAYER_COUNT,
                w == width,
                h == height,
                grid_fits(w as int, h as int),
                layers@.len() == i,
                autotiles@.len() == i,
                forall|j: int|
                    #![trigger layers@[j]]
                    0 <= j < i ==> {
                        &&& layers@[j].wf()
                        &&& layers@[j].width() == w
                        &&& layers@[j].height() == h
                        &&& layers@[j].cells() == Map::new(|p: (int, int)| in_rect(p, w as int, h as int), |p: (int, int)| None::<Tile>)
                    },
                forall|j: int|
                    #![trigger autotiles@[j]]
                    0 <= j < i ==> {
                        &&& autotiles@[j].wf()
                        &&& autotiles@[j].width() == w
                        &&& autotiles@[j].height() == h
                        &&& autotiles@[j].cells() == Map::new(|p: (int, int)| in_rect(p, w as int, h as int), |p: (int, int)| None::<AutoTile>)
                    },
            decreases LAYER_COUNT - i,
        {
            let g = TileGrid::new_empty(w, h);
            assert(g.cells().dom() =~= Set::new(|p: (int, int)| in_rect(p, g.width() as int, g.height() as int)));
            layers.push(g);
            let a = AutoTileGrid::new_empty(w, h);
            assert(a.cells().dom() =~= Set::new(|p: (int, int)| in_rect(p, a.width() as int, a.height() as int)));
            autotiles.push(a);
            i = i + 1;
        }
        let map = TileMap { width, height, layers, autotiles };
        assert forall|l: MapLayer| #[trigger] map.autotile_layer(l).cells() == autotiles_of(map.layer(l)) by {
            let k = l.spec_index();
            assert(map.layers@[k].wf());
            assert forall|p: (int, int)| #![auto] in_rect(p, w as int, h as int) implies expected_autotile(map.layer(l), p.0, p.1) == None::<AutoTile> by {
                assert(map.layer(l).cells()[p] == None::<Tile>);
            }
            assert(map.autotile_layer(l).cells() =~= autotiles_of(map.layer(l)));
        }
        map
    }

    /// The cached rendering of the autotile at `(x, y)` in a layer, if the
    /// cell holds one.
    pub fn autotile(&self, layer: MapLayer, x: u32, y: u32) -> (r: Option<AutoTile>)
        requires
            self.wf(),
        ensures
            r == (if self.contains(x as int, y as int) {
                self.autotile_layer(layer).cells()[(x as int, y as int)]
            } else {
                None
            }),
    {
        proof { self.lemma_wf(layer); }
        match self.autotiles[layer.index()].get(x as usize, y as usize) {
            Some(cell) => cell,
            None => None,
        }
    }

    /// Whether `pos` is a cell of the map.
    pub fn valid(&self, pos: Point2) -> (r: bool)
        ensures
            r == self.contains(pos.x as int, pos.y as int),
    {
        pos.x >= 0 && (pos.x as u32) < self.width && pos.y >= 0 && (pos.y as u32) < self.height
    }

    /// The tile at `pos` in a layer; `None` for an empty cell or a position
    /// outside the map.
    pub fn tile(&self, layer: MapLayer, pos: Point2) -> (r: Option<Tile>)
        requires
            self.wf(),
        ensures
            r == self.tile_at(layer, pos),
    {
        proof { self.lemma_wf(layer); }
        if pos.x < 0 || pos.y < 0 {
            return None;
        }
        match self.layers[layer.index()].get(pos.x as usize, pos.y as usize) {
            Some(cell) => cell,
            None => None,
        }
    }

    /// Places `tile` at `pos` in a layer and returns the tile it replaced.
    /// Outside the map nothing changes and `None` is returned.
    pub fn set_tile(&mut self, layer: MapLayer, pos: Point2, tile: Tile) -> (r: Option<Tile>)
        requires
            old(self).wf(),
        ensures
            final(self).wf(),
            replaced(*old(self), *final(self), layer, pos, Some(tile)),
            r == old(self).tile_at(layer, pos),
    {
        self.replace_cell(layer, pos, Some(tile))
    }

    /// Empties the cell at `pos` in a layer and returns the tile it held.
    /// Outside the map nothing changes and `None` is returned.
    pub fn clear_tile(&mut self, layer: MapLayer, pos: Point2) -> (r: Option<Tile>)
        requires
            old(self).wf(),
        ensures
            final(self).wf(),
            replaced(*old(self), *final(self), layer, pos, None),
            r == old(self).tile_at(layer, pos),
    {
        self.replace_cell(layer, pos, None)
    }

    /// Puts `value` in the cell at `pos` of a layer, when the cell exists,
    /// and returns what the cell held.
    fn replace_cell(&mut self, layer: MapLayer, pos: Point2, value: Option<Tile>) -> (r: Option<Tile>)
        requires
            old(self).wf(),
        ensures
            final(self).wf(),
            replaced(*old(self), *final(self), layer, pos, value),
            r == old(self).tile_at(layer, pos),
    {
        proof { self.lemma_wf(layer); }
        if !self.valid(pos) {
            return None;
        }
        let i = layer.index();
        let x = pos.x as usize;
        let y = pos.y as usize;
        let previous = match self.layers[i].get(x, y) {
            Some(cell) => cell,
            None => None,
        };
        self.layers[i].set(x, y, value);
        proof {
            let g = self.layers@[i as int];
            let og = old(self).layers@[i as int];
            assert(g.cells().dom() =~= og.cells().dom());
            assert forall|j: int| 0 <= j < LAYER_COUNT && j != i implies #[trigger] self.layers@[j] == old(self).layers@[j] by {}
            assert forall|l: MapLayer| l != layer implies #[trigger] self.layer(l) == old(self).layer(l) by {
                assert(l.spec_index() != layer.spec_index());
            }
        }
        previous
    }

    /// Puts `tile` (or nothing) in every cell of a layer.
    pub fn fill(&mut self, layer: MapLayer, tile: Option<Tile>)
        requires
            old(self).wf(),
        ensures
            final(self).wf(),
            final(self).spec_width() == old(self).spec_width(),
            final(self).spec_height() == old(self).spec_height(),
            forall|l: MapLayer| l != layer ==> #[trigger] final(self).layer(l) == old(self).layer(l),
            forall|l: MapLayer| #[trigger] final(self).autotile_layer(l) == old(self).autotile_layer(l),
            forall|x: int, y: int| old(self).contains(x, y) ==> #[trigger] final(self).cell(layer, x, y) == tile,
    {
        proof { self.lemma_wf(layer); }
        let i = layer.index();
        self.layers[i].fill(tile);
        proof {
            let g = self.layers@[i as int];
            assert(g.cells().dom() =~= Set::new(|p: (int, int)| in_rect(p, g.width() as int, g.height() as int)));
            assert forall|j: int| 0 <= j < LAYER_COUNT && j != i implies #[trigger] self.layers@[j] == old(self).layers@[j] by {}
            assert forall|l: MapLayer| l != layer implies #[trigger] self.layer(l) == old(self).layer(l) by {
                assert(l.spec_index() != layer.spec_index());
            }
        }
    }
    /// Whether every autotile of every layer can be rendered in `i32`
    /// coordinates.
    pub open spec fn textures_fit(self) -> bool {
        forall|l: MapLayer| grid_renders(#[trigger] self.layer(l))
    }

    /// Renders every autotile of every layer again, from the tiles and their
    /// neighbours as they are now.
    pub fn update_autotile_cache(&mut self)
        requires
            old(self).wf(),
            old(self).textures_fit(),
        ensures
            final(self).wf(),
            final(self).spec_width() == old(self).spec_width(),
            final(self).spec_height() == old(self).spec_height(),
            forall|l: MapLayer| #[trigger] final(self).layer(l) == old(self).layer(l),
            final(self).autotiles_current(),
    {
        let mut i: usize = 0;
        while i < LAYER_COUNT
            invariant
                i <= LAYER_COUNT,
                self.wf(),
                old(self).wf(),
                old(self).textures_fit(),
                self.width == old(self).width,
                self.height == old(self).height,
                self.layers@ == old(self).layers@,
                forall|j: int|
                    #![trigger self.autotiles@[j]]
                    0 <= j < i ==> self.autotiles@[j].cells() == autotiles_of(self.layers@[j]),
            decreases LAYER_COUNT - i,
        {
            let ghost layer = MapLayer::spec_from_index(i as int);
            proof {
                self.lemma_wf(layer);
                assert(grid_renders(old(self).layer(layer)));
            }
            let a = autotiles_for(&self.layers[i]);
            let ghost before = self.autotiles@;
            self.autotiles[i] = a;
            proof {
                assert forall|j: int| 0 <= j < LAYER_COUNT implies {
                    &&& #[trigger] self.autotiles@[j].wf()
                    &&& self.autotiles@[j].width() == self.width
                    &&& self.autotiles@[j].height() == self.height
                } by {
                    if j != i {
                        assert(self.autotiles@[j] == before[j]);
                    }
                }
            }
            i = i + 1;
        }
        proof {
            assert forall|l: MapLayer| #[trigger] self.autotile_layer(l).cells() == autotiles_of(self.layer(l)) by {
                assert(self.autotiles@[l.spec_index()].cells() == autotiles_of(self.layers@[l.spec_index()]));
            }
        }
    }
    /// Gives the map a new size. Cells inside both the old and the new size
    /// keep their tiles, cells the map did not have are empty, and the
    /// autotiles are rendered again.
    pub fn resize(&mut self, width: u32, height: u32)
        requires
            old(self).wf(),
            grid_fits(width as int, height as int),
            forall|l: MapLayer| layer_renders(resized_cells(#[trigger] old(self).layer(l), width as int, height as int), width as int, height as int),
        ensures
            final(self).wf(),
            final(self).spec_width() == width,
            final(self).spec_height() == height,
            forall|l: MapLayer, x: int, y: int|
                final(self).contains(x, y) ==> #[trigger] final(self).cell(l, x, y) == (if old(self).contains(x, y) {
                    old(self).cell(l, x, y)
                } else {
                    None
                }),
            final(self).autotiles_current(),
    {
        let w = width as usize;
        let h = height as usize;
        let mut layers: Vec<TileGrid> = Vec::new();
        let mut autotiles: Vec<AutoTileGrid> = Vec::new();
        let mut i: usize = 0;
        while i < LAYER_COUNT
            invariant
                i <= LAYER_COUNT,
                w == width,
                h == height,
                grid_fits(w as int, h as int),
                old(self).wf(),
                *self == *old(self),
                layers@.len() == i,
                autotiles@.len() == i,
                forall|j: int|
                    #![trigger layers@[j]]
                    0 <= j < i ==> {
                        &&& layers@[j].wf()
                        &&& layers@[j].width() == w
                        &&& layers@[j].height() == h
                        &&& forall|p: (int, int)| in_rect(p, w as int, h as int) ==> #[trigger] layers@[j].cells()[p] == kept_cell(old(self).layers@[j], p)
                    },
                forall|j: int|
                    #![trigger autotiles@[j]]
                    0 <= j < i ==> {
                        &&& autotiles@[j].wf()
                        &&& autotiles@[j].width() == w
                        &&& autotiles@[j].height() == h
                    },
            decreases LAYER_COUNT - i,
        {
            proof { self.lemma_wf(MapLayer::spec_from_index(i as int)); }
            let g = resized_grid(&self.layers[i], w, h);
            layers.push(g);
            let a = AutoTileGrid::new_empty(w, h);
            assert(a.cells().dom() =~= Set::new(|p: (int, int)| in_rect(p, a.width() as int, a.height() as int)));
            autotiles.push(a);
            i = i + 1;
        }
        let ghost before = *self;
        self.width = width;
        self.height = height;
        self.layers = layers;
        self.autotiles = autotiles;
        proof {
            assert forall|l: MapLayer| grid_renders(#[trigger] self.layer(l)) by {
                let k = l.spec_index();
                before.lemma_wf(l);
                assert(self.layer(l).cells() =~= resized_cells(before.layer(l), width as int, height as int)) by {
                    assert forall|p: (int, int)| #[trigger] self.layer(l).cells().contains_key(p) implies
                        self.layer(l).cells()[p] == resized_cells(before.layer(l), width as int, height as int)[p] by {
                        assert(self.layers@[k].cells()[p] == kept_cell(before.layers@[k], p));
                    }
                }
                assert(layer_renders(resized_cells(before.layer(l), width as int, height as int), width as int, height as int));
            }
        }
        let ghost resized = *self;
        self.update_autotile_cache();
        proof {
            assert forall|l: MapLayer, x: int, y: int| self.contains(x, y) implies #[trigger] self.cell(l, x, y) == (if old(self).contains(x, y) {
                old(self).cell(l, x, y)
            } else {
                None
            }) by {
                let k = l.spec_index();
                old(self).lemma_wf(l);
                assert(self.layer(l) == resized.layer(l));
                assert(resized.layers@[k].cells()[(x, y)] == kept_cell(old(self).layers@[k], (x, y)));
            }
        }
    }

    /// A map built from the layers received from the server, with its
    /// autotiles rendered. Every layer must be present, and every layer must
    /// have the map's size.
    pub fn from_layers(width: u32, height: u32, layers: Vec<Option<TileGrid>>) -> (r: Result<TileMap, MapError>)
        requires
            layers@.len() == LAYER_COUNT,
            forall|i: int| 0 <= i < LAYER_COUNT && #[trigger] layers@[i] is Some ==> layers@[i]->0.wf(),
            all_layers_sized(layers@, width as int, height as int) ==> {
                &&& grid_fits(width as int, height as int)
                &&& forall|i: int| 0 <= i < LAYER_COUNT ==> grid_renders(#[trigger] layers@[i]->0)
            },
        ensures
            r == Err::<TileMap, MapError>(MapError::IncorrectLayers) <==> exists|i: int| 0 <= i < LAYER_COUNT && #[trigger] layers@[i] is None,
            r == Err::<TileMap, MapError>(MapError::IncorrectSize) <==> (forall|i: int| 0 <= i < LAYER_COUNT ==> #[trigger] layers@[i] is Some)
                && !all_layers_sized(layers@, width as int, height as int),
            r is Ok <==> all_layers_sized(layers@, width as int, height as int),
            r matches Ok(map) ==> {
                &&& map.wf()
                &&& map.spec_width() == width
                &&& map.spec_height() == height
                &&& forall|l: MapLayer| #[trigger] map.layer(l) == layers@[l.spec_index()]->0
                &&& map.autotiles_current()
            },
    {
        let mut i: usize = 0;
        while i < LAYER_COUNT
            invariant
                i <= LAYER_COUNT,
                layers@.len() == LAYER_COUNT,
                forall|j: int| 0 <= j < i ==> #[trigger] layers@[j] is Some,
            decreases LAYER_COUNT - i,
        {
            if layers[i].is_none() {
                return Err(MapError::IncorrectLayers);
            }
            i = i + 1;
        }
        let mut i: usize = 0;
        while i < LAYER_COUNT
            invariant
                i <= LAYER_COUNT,
                layers@.len() == LAYER_COUNT,
                forall|j: int| 0 <= j < LAYER_COUNT ==> #[trigger] layers@[j] is Some,
                forall|j: int| 0 <= j < i ==> layer_sized(#[trigger] layers@[j], width as int, height as int),
            decreases LAYER_COUNT - i,
        {
            let sized = match &layers[i] {
                Some(g) => {
                    let (w, h) = g.shape();
                    w == width as usize && h == height as usize
                },
                None => false,
            };
            if !sized {
                return Err(MapError::IncorrectSize);
            }
            i = i + 1;
        }
        let ghost given = layers@;
        let mut layers = layers;
        let mut grids: Vec<TileGrid> = Vec::new();
        let mut autotiles: Vec<AutoTileGrid> = Vec::new();
        let w = width as usize;
        let h = height as usize;
        assert(layers@ =~= given.subrange(0, LAYER_COUNT as int));
        while layers.len() > 0
            invariant
                grids@.len() + layers@.len() == LAYER_COUNT,
                grids@.len() == autotiles@.len(),
                w == width,
                h == height,
                grid_fits(w as int, h as int),
                given.len() == LAYER_COUNT,
                layers@ == given.subrange(grids@.len() as int, LAYER_COUNT as int),
                forall|j: int| 0 <= j < LAYER_COUNT ==> #[trigger] given[j] is Some,
                forall|j: int| 0 <= j < grids@.len() ==> #[trigger] grids@[j] == given[j]->0,
                forall|j: int|
                    #![trigger autotiles@[j]]
                    0 <= j < autotiles@.len() ==> {
                        &&& autotiles@[j].wf()
                        &&& autotiles@[j].width() == w
                        &&& autotiles@[j].height() == h
                    },
            decreases layers@.len(),
        {
            let ghost k = grids@.len() as int;
            assert(layers@[0] == given[k]);
            let g = layers.remove(0).unwrap();
            grids.push(g);
            let a = AutoTileGrid::new_empty(w, h);
            assert(a.cells().dom() =~= Set::new(|p: (int, int)| in_rect(p, a.width() as int, a.height() as int)));
            autotiles.push(a);
            assert(layers@ =~= given.subrange(grids@.len() as int, LAYER_COUNT as int));
        }
        let mut map = TileMap { width, height, layers: grids, autotiles };
        proof {
            assert forall|j: int| 0 <= j < LAYER_COUNT implies {
                &&& #[trigger] map.layers@[j].wf()
                &&& map.layers@[j].width() == width
                &&& map.layers@[j].height() == height
            } by {
                assert(layer_sized(given[j], width as int, height as int));
            }
            assert forall|l: MapLayer| grid_renders(#[trigger] map.layer(l)) by {
                assert(grid_renders(given[l.spec_index()]->0));
            }
        }
        map.update_autotile_cache();
        Ok(map)
    }
}

/// Reading a cell after putting a tile (or nothing) in it gives back what was
/// put there; every other cell reads as before.
pub proof fn law_read_after_write(before: TileMap, after: TileMap, layer: MapLayer, pos: Point2, value: Option<Tile>)
    requires
        before.wf(),
        replaced(before, after, layer, pos, value),
    ensures
        after.tile_at(layer, pos) == (if before.contains(pos.x as int, pos.y as int) { value } else { None }),
        forall|l: MapLayer, q: Point2|
            !(l == layer && q.x == pos.x && q.y == pos.y) ==> #[trigger] after.tile_at(l, q) == before.tile_at(l, q),
{
    assert forall|l: MapLayer, q: Point2|
        !(l == layer && q.x == pos.x && q.y == pos.y) implies #[trigger] after.tile_at(l, q) == before.tile_at(l, q) by {
        if l == layer {
            assert(q != pos);
        }
    }
}

/// A layer in which every cell holds an autotile of one texture is drawn
/// entirely from the sheet's fill quarters: every neighbour matches, inside
/// the layer because it holds the same texture, past the edge by rule.
pub proof fn law_uniform_layer_fills(grid: TileGrid, tile: Tile, x: int, y: int)
    requires
        grid.wf(),
        tile.autotile,
        i32::MIN <= 2 * tile.texture.x,
        i32::MIN <= 2 * tile.texture.y,
        2 * tile.texture.x + 2 <= i32::MAX,
        2 * tile.texture.y + 4 <= i32::MAX,
        in_rect((x, y), grid.width() as int, grid.height() as int),
        forall|p: (int, int)| in_rect(p, grid.width() as int, grid.height() as int) ==> #[trigger] grid.cells()[p] == Some(tile),
    ensures
        expected_autotile(grid, x, y) == Some(AutoTile {
            top_left: Point2 { x: (2 * tile.texture.x + 2) as i32, y: (2 * tile.texture.y + 4) as i32 },
            top_right: Point2 { x: (2 * tile.texture.x + 1) as i32, y: (2 * tile.texture.y + 4) as i32 },
            bottom_left: Point2 { x: (2 * tile.texture.x + 2) as i32, y: (2 * tile.texture.y + 3) as i32 },
            bottom_right: Point2 { x: (2 * tile.texture.x + 1) as i32, y: (2 * tile.texture.y + 3) as i32 },
        }),
{
    let t = tile.texture;
    assert(grid.cells()[(x, y)] == Some(tile));
    assert forall|i: int| 0 <= i < 8 implies #[trigger] neighbor_matches(grid, x, y, t, i) by {
        let q = (x + spec_offset(i).0, y + spec_offset(i).1);
        if in_rect(q, grid.width() as int, grid.height() as int) {
            assert(grid.cells()[q] == Some(tile));
        }
    }
    reveal_with_fuel(mask_upto_in, 9);
    assert(neighbor_mask(grid, x, y, t) == 255u8);
    assert(255u8 & 1 != 0 && 255u8 & 2 != 0 && 255u8 & 4 != 0 && 255u8 & 8 != 0 && 255u8 & 16 != 0
        && 255u8 & 32 != 0 && 255u8 & 64 != 0 && 255u8 & 128 != 0) by (bit_vector);
}

} // verus!
