//! The compositor: a canvas for the whole grid, filled tile by tile.

use crate::codec::{decoded_png, png_file_of};
use crate::raster::{lemma_picture_ext, Picture, Pixel, Raster};
use crate::tiles::{read_tile, refusal, tile_in, TileError, TileGridSpec};
use vstd::prelude::*;

verus! {

/// The picture that the tiles placed so far make: each tile in its cell, the
/// cell of row `r` and column `c` starting `c` tile edges from the left and
/// `r` tile edges from the top; cells without a tile are clear.
pub open spec fn composed(grid: TileGridSpec, tiles: Map<(int, int), Picture>) -> Picture {
    Picture::from_fn(
        grid.canvas_edge(),
        grid.canvas_edge(),
        |x: int, y: int|
            {
                let edge = grid.tile_edge_length as int;
                let cell = (y / edge, x / edge);
                if tiles.dom().contains(cell) {
                    tiles[cell].at(x % edge, y % edge)
                } else {
                    Pixel::spec_clear()
                }
            },
    )
}

/// The pixel of `picture` that lies `i` columns and `j` rows into the cell
/// `(row, col)` of the grid: the cell starts `col` tile edges from the left
/// and `row` tile edges from the top.
pub open spec fn pixel_in_cell(
    picture: Picture,
    grid: TileGridSpec,
    row: int,
    col: int,
    i: int,
    j: int,
) -> Pixel {
    picture.at(col * grid.tile_edge_length + i, row * grid.tile_edge_length + j)
}

/// Every tile stands in its cell of `picture`.
pub open spec fn holds_tiles(
    picture: Picture,
    grid: TileGridSpec,
    tiles: Map<(int, int), Picture>,
) -> bool {
    forall|row: int, col: int, i: int, j: int|
        tiles.dom().contains((row, col)) && grid.has_cell(row, col) && 0 <= i
            < grid.tile_edge_length && 0 <= j < grid.tile_edge_length ==> #[trigger] pixel_in_cell(
            picture,
            grid,
            row,
            col,
            i,
            j,
        ) == tiles[(row, col)].at(i, j)
}

/// Every cell of the grid has its tile.
pub open spec fn complete(grid: TileGridSpec, tiles: Map<(int, int), Picture>) -> bool {
    forall|row: int, col: int| grid.has_cell(row, col) ==> tiles.dom().contains((row, col))
}

/// Cell `(row, col)` is fetched before cell `(other_row, other_col)`: the
/// columns go from left to right, each column from the top down.
pub open spec fn fetched_before(row: int, col: int, other_row: int, other_col: int) -> bool {
    col < other_col || (col == other_col && row < other_row)
}

/// Where the flag of cell `(row, col)` stands among the flags of a grid
/// `dimension` cells wide.
spec fn cell_index(dimension: int, row: int, col: int) -> int {
    row * dimension + col
}

/// What a mosaic is: its grid and the tiles placed so far, by `(row, col)`.
pub struct MosaicView {
    pub grid: TileGridSpec,
    pub tiles: Map<(int, int), Picture>,
}

/// A mosaic under construction. The canvas stays inside until every cell has
/// its tile.
pub struct Mosaic {
    grid: TileGridSpec,
    canvas: Raster,
    placed: Vec<bool>,
    tiles: Ghost<Map<(int, int), Picture>>,
}

impl View for Mosaic {
    type V = MosaicView;

    closed spec fn view(&self) -> MosaicView {
        MosaicView { grid: self.grid, tiles: self.tiles@ }
    }
}

/// The pixels of a column range `[c * edge, c * edge + edge)` are those whose
/// quotient by `edge` is `c`; their remainder is their place inside the range.
proof fn lemma_cell_of(edge: int, c: int, x: int)
    requires
        edge > 0,
    ensures
        (c * edge <= x < c * edge + edge) <==> x / edge == c,
        x / edge == c ==> x % edge == x - c * edge,
        0 <= x % edge < edge,
{
    vstd::arithmetic::div_mod::lemma_fundamental_div_mod(x, edge);
    vstd::arithmetic::div_mod::lemma_mod_bound(x, edge);
    if c * edge <= x < c * edge + edge {
        vstd::arithmetic::div_mod::lemma_fundamental_div_mod_converse(x, edge, c, x - c * edge);
    }
    assert(edge * (x / edge) == (x / edge) * edge) by (nonlinear_arith);
}

/// Two cells of a grid with the same flag index are the same cell.
proof fn lemma_cell_index_unique(dimension: int, r1: int, c1: int, r2: int, c2: int)
    requires
        0 <= c1 < dimension,
        0 <= c2 < dimension,
        cell_index(dimension, r1, c1) == cell_index(dimension, r2, c2),
    ensures
        r1 == r2,
        c1 == c2,
{
    assert(r1 == r2) by (nonlinear_arith)
        requires
            0 <= c1 < dimension,
            0 <= c2 < dimension,
            r1 * dimension + c1 == r2 * dimension + c2,
    ;
}

/// The flags of a grid are as many as its cells, and each cell has its own.
proof fn lemma_cell_index_bound(dimension: int, row: int, col: int)
    requires
        0 <= row < dimension,
        0 <= col < dimension,
    ensures
        0 <= cell_index(dimension, row, col) < dimension * dimension,
{
    assert(0 <= row * dimension + col < dimension * dimension) by (nonlinear_arith)
        requires
            0 <= row < dimension,
            0 <= col < dimension,
    ;
}

/// The tile of cell `(row, col)` appears on the composed picture with its
/// top-left pixel at `(col * edge, row * edge)`, and the picture has
/// `dimension * edge` pixels on each side.
pub proof fn lemma_tile_offset(
    grid: TileGridSpec,
    tiles: Map<(int, int), Picture>,
    row: int,
    col: int,
    i: int,
    j: int,
)
    requires
        grid.tile_edge_length >= 1,
        grid.has_cell(row, col),
        tiles.dom().contains((row, col)),
        0 <= i < grid.tile_edge_length,
        0 <= j < grid.tile_edge_length,
    ensures
        composed(grid, tiles).width == grid.grid_dimension * grid.tile_edge_length,
        composed(grid, tiles).height == grid.grid_dimension * grid.tile_edge_length,
        composed(grid, tiles).width * composed(grid, tiles).height == (grid.grid_dimension
            * grid.grid_dimension) * (grid.tile_edge_length * grid.tile_edge_length),
        composed(grid, tiles).contains(
            col * grid.tile_edge_length + i,
            row * grid.tile_edge_length + j,
        ),
        composed(grid, tiles).at(col * grid.tile_edge_length + i, row * grid.tile_edge_length + j)
            == tiles[(row, col)].at(i, j),
        pixel_in_cell(composed(grid, tiles), grid, row, col, i, j) == tiles[(row, col)].at(i, j),
{
    let edge = grid.tile_edge_length as int;
    let n = grid.grid_dimension as int;
    let x = col * edge + i;
    let y = row * edge + j;
    lemma_cell_of(edge, col, x);
    lemma_cell_of(edge, row, y);
    assert(0 <= x < n * edge && 0 <= y < n * edge) by (nonlinear_arith)
        requires
            0 <= col < n,
            0 <= row < n,
            0 <= i < edge,
            0 <= j < edge,
            x == col * edge + i,
            y == row * edge + j,
    ;
    assert((n * edge) * (n * edge) == (n * n) * (edge * edge)) by (nonlinear_arith);
}

/// The composed picture holds every tile in its cell.
pub proof fn lemma_holds_tiles(grid: TileGridSpec, tiles: Map<(int, int), Picture>)
    requires
        grid.tile_edge_length >= 1,
    ensures
        holds_tiles(composed(grid, tiles), grid, tiles),
{
    assert forall|row: int, col: int, i: int, j: int|
        tiles.dom().contains((row, col)) && grid.has_cell(row, col) && 0 <= i
            < grid.tile_edge_length && 0 <= j < grid.tile_edge_length implies #[trigger] pixel_in_cell(
        composed(grid, tiles),
        grid,
        row,
        col,
        i,
        j,
    ) == tiles[(row, col)].at(i, j) by {
        lemma_tile_offset(grid, tiles, row, col, i, j);
    }
}

impl Mosaic {
    #[verifier::type_invariant]
    spec fn inv(self) -> bool {
        &&& self.grid.feasible()
        &&& self.canvas@ == composed(self.grid, self.tiles@)
        &&& self.placed.len() == self.grid.cell_count()
        &&& forall|row: int, col: int|
            self.grid.has_cell(row, col) ==> #[trigger] self.placed@[cell_index(
                self.grid.grid_dimension as int,
                row,
                col,
            )] == self.tiles@.dom().contains((row, col))
        &&& forall|row: int, col: int| #[trigger]
            self.tiles@.dom().contains((row, col)) ==> self.grid.has_cell(row, col)
    }

    /// An empty mosaic for `grid`, if the grid is feasible.
    pub fn new(grid: TileGridSpec) -> (mosaic: Option<Mosaic>)
        ensures
            mosaic is Some <==> grid.feasible(),
            mosaic matches Some(m) ==> m@.grid == grid && m@.tiles == Map::<
                (int, int),
                Picture,
            >::empty(),
    {
        let edge = match grid.checked_canvas_edge() {
            Some(edge) => edge,
            None => {
                return None;
            },
        };
        let canvas = match Raster::blank(edge, edge) {
            Some(canvas) => canvas,
            None => {
                return None;
            },
        };
        let n: usize = grid.grid_dimension as usize;
        assert(n * n <= edge * edge) by (nonlinear_arith)
            requires
                0 <= n,
                edge == n * grid.tile_edge_length,
                grid.tile_edge_length >= 1,
        ;
        let placed: Vec<bool> = vec![false; n * n];
        let ghost tiles = Map::<(int, int), Picture>::empty();
        proof {
            let want = composed(grid, tiles);
            lemma_picture_ext(canvas@, want);
            assert forall|row: int, col: int| grid.has_cell(row, col) implies #[trigger] placed@[cell_index(
                grid.grid_dimension as int,
                row,
                col,
            )] == tiles.dom().contains((row, col)) by {
                lemma_cell_index_bound(grid.grid_dimension as int, row, col);
            }
        }
        Some(Mosaic { grid, canvas, placed, tiles: Ghost(tiles) })
    }

    /// The grid that the mosaic is assembled on.
    pub fn grid(&self) -> (grid: TileGridSpec)
        ensures
            grid == self@.grid,
            grid.feasible(),
    {
        proof {
            use_type_invariant(self);
        }
        self.grid
    }

    /// A mosaic of a grid without cells; it holds nothing.
    fn vacant() -> (mosaic: Mosaic)
        ensures
            mosaic@.grid == (TileGridSpec { grid_dimension: 0, tile_edge_length: 1 }),
            mosaic@.tiles == Map::<(int, int), Picture>::empty(),
            complete(mosaic@.grid, mosaic@.tiles),
    {
        let grid = TileGridSpec { grid_dimension: 0, tile_edge_length: 1 };
        let canvas = Raster::empty();
        let ghost tiles = Map::<(int, int), Picture>::empty();
        proof {
            assert(crate::raster::byte_len(0, 0) == 0);
            lemma_picture_ext(canvas@, composed(grid, tiles));
        }
        Mosaic { grid, canvas, placed: Vec::new(), tiles: Ghost(tiles) }
    }

    /// Puts `tile` into cell `(row, col)`: its pixels go to the canvas from
    /// `(col * edge, row * edge)` on. A tile that was there before is replaced.
    ///
    /// Refused, and the mosaic left as it was, where the grid has no such
    /// cell or the tile is not exactly one tile large.
    pub fn place_tile(&mut self, row: u32, col: u32, tile: &Raster) -> (res: Result<(), TileError>)
        ensures
            final(self)@.grid == old(self)@.grid,
            match res {
                Ok(()) => {
                    &&& old(self)@.grid.has_cell(row as int, col as int)
                    &&& tile@.width == old(self)@.grid.tile_edge_length
                    &&& tile@.height == old(self)@.grid.tile_edge_length
                    &&& final(self)@.tiles == old(self)@.tiles.insert(
                        (row as int, col as int),
                        tile@,
                    )
                },
                Err(TileError::OutOfGrid { row: r, col: c }) => {
                    &&& r == row && c == col
                    &&& !old(self)@.grid.has_cell(row as int, col as int)
                    &&& final(self)@ == old(self)@
                },
                Err(TileError::WrongSize { row: r, col: c, width, height }) => {
                    &&& r == row && c == col
                    &&& old(self)@.grid.has_cell(row as int, col as int)
                    &&& width == tile@.width && height == tile@.height
                    &&& (tile@.width != old(self)@.grid.tile_edge_length || tile@.height != old(
                        self,
                    )@.grid.tile_edge_length)
                    &&& final(self)@ == old(self)@
                },
                Err(_) => false,
            },
    {
        proof {
            use_type_invariant(&*self);
            tile.lemma_view_wf();
        }
        let n = self.grid.grid_dimension;
        let edge = self.grid.tile_edge_length;
        if row >= n || col >= n {
            return Err(TileError::OutOfGrid { row, col });
        }
        if tile.width() != edge || tile.height() != edge {
            return Err(
                TileError::WrongSize { row, col, width: tile.width(), height: tile.height() },
            );
        }
        let mut taken = Mosaic::vacant();
        core::mem::swap(self, &mut taken);
        let Mosaic { grid, canvas, placed, tiles } = taken;
        let mut canvas = canvas;
        let mut placed = placed;
        let ghost before = tiles@;
        let ghost after = before.insert((row as int, col as int), tile@);
        proof {
            lemma_cell_index_bound(n as int, row as int, col as int);
            assert(col * edge + edge <= n * edge && row * edge + edge <= n * edge)
                by (nonlinear_arith)
                requires
                    0 <= col < n,
                    0 <= row < n,
                    0 <= edge,
            ;
        }
        let x: u32 = col * edge;
        let y: u32 = row * edge;
        let flag: usize = (row as usize) * (n as usize) + (col as usize);
        canvas.paste(tile, x, y);
        placed.set(flag, true);
        proof {
            let want = composed(grid, after);
            assert forall|px: int, py: int| canvas@.contains(px, py) implies canvas@.at(px, py)
                == want.at(px, py) by {
                lemma_cell_of(edge as int, col as int, px);
                lemma_cell_of(edge as int, row as int, py);
            }
            lemma_picture_ext(canvas@, want);
            assert forall|r: int, c: int| grid.has_cell(r, c) implies #[trigger] placed@[cell_index(
                n as int,
                r,
                c,
            )] == after.dom().contains((r, c)) by {
                lemma_cell_index_bound(n as int, r, c);
                if cell_index(n as int, r, c) == flag {
                    lemma_cell_index_unique(n as int, r, c, row as int, col as int);
                }
            }
        }
        *self = Mosaic { grid, canvas, placed, tiles: Ghost(after) };
        Ok(())
    }

    /// The first cell, in the order in which tiles are fetched, that has no
    /// tile yet; `None` when the mosaic is complete.
    pub fn first_missing(&self) -> (cell: Option<(u32, u32)>)
        ensures
            cell is None <==> complete(self@.grid, self@.tiles),
            cell matches Some((row, col)) ==> {
                &&& self@.grid.has_cell(row as int, col as int)
                &&& !self@.tiles.dom().contains((row as int, col as int))
                &&& forall|r: int, c: int|
                    self@.grid.has_cell(r, c) && fetched_before(r, c, row as int, col as int)
                        ==> self@.tiles.dom().contains((r, c))
            },
    {
        proof {
            use_type_invariant(self);
        }
        let n = self.grid.grid_dimension;
        let mut col: u32 = 0;
        while col < n
            invariant
                col <= n,
                n == self.grid.grid_dimension,
                self.placed.len() == self.grid.cell_count(),
                forall|r: int, c: int|
                    self.grid.has_cell(r, c) ==> #[trigger] self.placed@[cell_index(n as int, r, c)]
                        == self.tiles@.dom().contains((r, c)),
                forall|r: int, c: int|
                    self.grid.has_cell(r, c) && c < col ==> self.tiles@.dom().contains((r, c)),
            decreases n - col,
        {
            let mut row: u32 = 0;
            while row < n
                invariant
                    row <= n,
                    col < n,
                    n == self.grid.grid_dimension,
                    self.placed.len() == self.grid.cell_count(),
                    forall|r: int, c: int|
                        self.grid.has_cell(r, c) ==> #[trigger] self.placed@[cell_index(
                            n as int,
                            r,
                            c,
                        )] == self.tiles@.dom().contains((r, c)),
                    forall|r: int, c: int|
                        self.grid.has_cell(r, c) && fetched_before(r, c, row as int, col as int)
                            ==> self.tiles@.dom().contains((r, c)),
                decreases n - row,
            {
                proof {
                    lemma_cell_index_bound(n as int, row as int, col as int);
                }
                let flag: usize = (row as usize) * (n as usize) + (col as usize);
                if !self.placed[flag] {
                    assert(self.grid.has_cell(row as int, col as int));
                    assert(self.placed@[cell_index(n as int, row as int, col as int)]
                        == self.tiles@.dom().contains((row as int, col as int)));
                    return Some((row, col));
                }
                assert(self.placed@[cell_index(n as int, row as int, col as int)]
                    == self.tiles@.dom().contains((row as int, col as int)));
                row = row + 1;
            }
            col = col + 1;
        }
        None
    }

    /// Whether every cell has its tile.
    pub fn is_complete(&self) -> (done: bool)
        ensures
            done == complete(self@.grid, self@.tiles),
    {
        self.first_missing().is_none()
    }

    /// Hands out the finished canvas. Refused while a cell lacks its tile:
    /// the error names the first such cell in fetch order.
    pub fn finish(self) -> (res: Result<Raster, TileError>)
        ensures
            match res {
                Ok(raster) => {
                    &&& complete(self@.grid, self@.tiles)
                    &&& raster@ == composed(self@.grid, self@.tiles)
                    &&& raster@.width == self@.grid.canvas_edge()
                    &&& raster@.height == self@.grid.canvas_edge()
                    &&& holds_tiles(raster@, self@.grid, self@.tiles)
                },
                Err(TileError::Missing { row, col }) => {
                    &&& self@.grid.has_cell(row as int, col as int)
                    &&& !self@.tiles.dom().contains((row as int, col as int))
                    &&& forall|r: int, c: int|
                        self@.grid.has_cell(r, c) && fetched_before(r, c, row as int, col as int)
                            ==> self@.tiles.dom().contains((r, c))
                },
                Err(_) => false,
            },
    {
        proof {
            use_type_invariant(&self);
        }
        match self.first_missing() {
            Some((row, col)) => Err(TileError::Missing { row, col }),
            None => {
                proof {
                    lemma_holds_tiles(self.grid, self.tiles@);
                }
                Ok(self.canvas)
            },
        }
    }
}

/// Where the response for cell `(row, col)` stands among the responses of
/// a refresh: the tiles are fetched column by column, each from the top down.
pub open spec fn fetch_position(grid: TileGridSpec, row: int, col: int) -> int {
    col * grid.grid_dimension + row
}

/// The responses hold a tile for every cell that is fetched before `(row, col)`.
pub open spec fn tiles_arrive_before(
    grid: TileGridSpec,
    bodies: Seq<Vec<u8>>,
    row: int,
    col: int,
) -> bool {
    forall|r: int, c: int|
        grid.has_cell(r, c) && fetched_before(r, c, row, col) ==> {
            &&& #[trigger] fetch_position(grid, r, c) < bodies.len()
            &&& tile_in(grid, bodies[fetch_position(grid, r, c)]@) is Some
        }
}

/// The tiles that the responses hold for the cells fetched before `(row, col)`.
pub open spec fn tiles_before(grid: TileGridSpec, bodies: Seq<Vec<u8>>, row: int, col: int) -> Map<
    (int, int),
    Picture,
> {
    Map::new(
        |cell: (int, int)|
            grid.has_cell(cell.0, cell.1) && fetched_before(cell.0, cell.1, row, col),
        |cell: (int, int)| tile_in(grid, bodies[fetch_position(grid, cell.0, cell.1)]@).unwrap(),
    )
}

/// The tiles that the responses of a refresh hold, by cell.
pub open spec fn tiles_of(grid: TileGridSpec, bodies: Seq<Vec<u8>>) -> Map<(int, int), Picture> {
    tiles_before(grid, bodies, 0, grid.grid_dimension as int)
}

/// The mosaic of a refresh, from the responses in the order in which the
/// tiles were asked for.
///
/// It is there if and only if the grid is feasible and every cell has a
/// response that holds a tile. Else the error tells what is wrong with the
/// first cell, in fetch order, that has none: its response is missing, or is
/// refused as [`read_tile`] refuses it.
pub fn stitch(grid: &TileGridSpec, bodies: &Vec<Vec<u8>>) -> (res: Result<Raster, TileError>)
    ensures
        res is Ok <==> grid.feasible() && tiles_arrive_before(
            *grid,
            bodies@,
            0,
            grid.grid_dimension as int,
        ),
        match res {
            Ok(mosaic) => {
                &&& grid.feasible()
                &&& tiles_arrive_before(*grid, bodies@, 0, grid.grid_dimension as int)
                &&& mosaic@ == composed(*grid, tiles_of(*grid, bodies@))
                &&& mosaic@.width == grid.canvas_edge()
                &&& mosaic@.height == grid.canvas_edge()
                &&& holds_tiles(mosaic@, *grid, tiles_of(*grid, bodies@))
            },
            Err(TileError::InfeasibleGrid { grid_dimension, tile_edge_length }) => {
                &&& !grid.feasible()
                &&& grid_dimension == grid.grid_dimension
                &&& tile_edge_length == grid.tile_edge_length
            },
            Err(TileError::Missing { row, col }) => {
                &&& grid.feasible()
                &&& grid.has_cell(row as int, col as int)
                &&& tiles_arrive_before(*grid, bodies@, row as int, col as int)
                &&& fetch_position(*grid, row as int, col as int) >= bodies@.len()
            },
            Err(error) => exists|row: u32, col: u32|
                {
                    &&& grid.feasible()
                    &&& grid.has_cell(row as int, col as int)
                    &&& tiles_arrive_before(*grid, bodies@, row as int, col as int)
                    &&& fetch_position(*grid, row as int, col as int) < bodies@.len()
                    &&& tile_in(
                        *grid,
                        bodies@[fetch_position(*grid, row as int, col as int)]@,
                    ) is None
                    &&& #[trigger] refusal(
                        *grid,
                        row,
                        col,
                        bodies@[fetch_position(*grid, row as int, col as int)]@.len(),
                        decoded_png(bodies@[fetch_position(*grid, row as int, col as int)]@),
                        error,
                    )
                },
        },
{
    let mut mosaic = match Mosaic::new(*grid) {
        Some(mosaic) => mosaic,
        None => {
            return Err(
                TileError::InfeasibleGrid {
                    grid_dimension: grid.grid_dimension,
                    tile_edge_length: grid.tile_edge_length,
                },
            );
        },
    };
    let n = grid.grid_dimension;
    assert(mosaic@.tiles =~= tiles_before(*grid, bodies@, 0, 0));
    let mut col: u32 = 0;
    while col < n
        invariant
            col <= n,
            n == grid.grid_dimension,
            grid.feasible(),
            mosaic@.grid == *grid,
            mosaic@.tiles == tiles_before(*grid, bodies@, 0, col as int),
            tiles_arrive_before(*grid, bodies@, 0, col as int),
        decreases n - col,
    {
        let mut row: u32 = 0;
        while row < n
            invariant
                row <= n,
                col < n,
                n == grid.grid_dimension,
                grid.feasible(),
                mosaic@.grid == *grid,
                mosaic@.tiles == tiles_before(*grid, bodies@, row as int, col as int),
                tiles_arrive_before(*grid, bodies@, row as int, col as int),
            decreases n - row,
        {
            assert(0 <= col * n + row < n * n && n * n <= 0xffff_ffff * 0xffff_ffff)
                by (nonlinear_arith)
                requires
                    0 <= row < n,
                    0 <= col < n,
                    n <= 0xffff_ffff,
            ;
            let position: u64 = (col as u64) * (n as u64) + (row as u64);
            if position >= bodies.len() as u64 {
                assert(grid.has_cell(row as int, col as int) && fetched_before(
                    row as int,
                    col as int,
                    0,
                    n as int,
                ));
                return Err(TileError::Missing { row, col });
            }
            let body = &bodies[position as usize];
            let tile = match read_tile(grid, row, col, body.as_slice()) {
                Ok(tile) => tile,
                Err(error) => {
                    assert(grid.has_cell(row as int, col as int) && fetched_before(
                        row as int,
                        col as int,
                        0,
                        n as int,
                    ));
                    assert(refusal(
                        *grid,
                        row,
                        col,
                        bodies@[fetch_position(*grid, row as int, col as int)]@.len(),
                        decoded_png(bodies@[fetch_position(*grid, row as int, col as int)]@),
                        error,
                    ));
                    return Err(error);
                },
            };
            let ghost before = mosaic@.tiles;
            match mosaic.place_tile(row, col, &tile) {
                Ok(()) => {},
                Err(error) => {
                    assert(false);
                    return Err(error);
                },
            }
            proof {
                assert(mosaic@.tiles =~= tiles_before(*grid, bodies@, row + 1, col as int));
            }
            row = row + 1;
        }
        proof {
            assert(mosaic@.tiles =~= tiles_before(*grid, bodies@, 0, col + 1));
        }
        col = col + 1;
    }
    match mosaic.finish() {
        Ok(raster) => Ok(raster),
        Err(error) => {
            assert(false);
            Err(error)
        },
    }
}

/// The mosaic is made of the responses alone: two refreshes that get the
/// same bytes for every cell compose the same picture, and the PNG file of
/// the one is that of the other, byte for byte.
pub proof fn lemma_same_responses_same_mosaic(
    grid: TileGridSpec,
    first: Seq<Vec<u8>>,
    second: Seq<Vec<u8>>,
)
    requires
        first.len() == second.len(),
        forall|i: int| 0 <= i < first.len() ==> first[i]@ == second[i]@,
    ensures
        tiles_arrive_before(grid, first, 0, grid.grid_dimension as int) == tiles_arrive_before(
            grid,
            second,
            0,
            grid.grid_dimension as int,
        ),
        tiles_arrive_before(grid, first, 0, grid.grid_dimension as int) ==> {
            &&& composed(grid, tiles_of(grid, first)) == composed(grid, tiles_of(grid, second))
            &&& png_file_of(composed(grid, tiles_of(grid, first))) == png_file_of(
                composed(grid, tiles_of(grid, second)),
            )
        },
{
    let n = grid.grid_dimension as int;
    assert forall|r: int, c: int| grid.has_cell(r, c) implies 0 <= #[trigger] fetch_position(
        grid,
        r,
        c,
    ) by {
        assert(0 <= c * n + r) by (nonlinear_arith)
            requires
                0 <= r,
                0 <= c,
                0 <= n,
        ;
    }
    if tiles_arrive_before(grid, first, 0, n) {
        assert forall|r: int, c: int| grid.has_cell(r, c) && fetched_before(r, c, 0, n) implies {
            &&& #[trigger] fetch_position(grid, r, c) < second.len()
            &&& tile_in(grid, second[fetch_position(grid, r, c)]@) is Some
        } by {
            assert(fetch_position(grid, r, c) < first.len());
        }
        assert(tiles_of(grid, first) =~= tiles_of(grid, second)) by {
            assert forall|cell: (int, int)| #[trigger]
                tiles_of(grid, first).dom().contains(cell) implies tiles_of(grid, first)[cell]
                == tiles_of(grid, second)[cell] by {
                assert(fetch_position(grid, cell.0, cell.1) < first.len());
            }
        }
    }
    if tiles_arrive_before(grid, second, 0, n) {
        assert forall|r: int, c: int| grid.has_cell(r, c) && fetched_before(r, c, 0, n) implies {
            &&& #[trigger] fetch_position(grid, r, c) < first.len()
            &&& tile_in(grid, first[fetch_position(grid, r, c)]@) is Some
        } by {
            assert(fetch_position(grid, r, c) < second.len());
        }
    }
}

/// Every cell is a region of its own: a tile that goes into one cell leaves
/// the pixels of every other cell as they were.
pub proof fn lemma_cells_are_apart(
    grid: TileGridSpec,
    tiles: Map<(int, int), Picture>,
    row: int,
    col: int,
    tile: Picture,
    x: int,
    y: int,
)
    requires
        grid.tile_edge_length >= 1,
        composed(grid, tiles).contains(x, y),
        (y / (grid.tile_edge_length as int), x / (grid.tile_edge_length as int)) != (row, col),
    ensures
        composed(grid, tiles.insert((row, col), tile)).at(x, y) == composed(grid, tiles).at(x, y),
{
}

/// The order in which two cells get their tiles does not show in the picture.
pub proof fn lemma_order_does_not_matter(
    grid: TileGridSpec,
    tiles: Map<(int, int), Picture>,
    first: (int, int),
    first_tile: Picture,
    second: (int, int),
    second_tile: Picture,
)
    requires
        first != second,
    ensures
        composed(grid, tiles.insert(first, first_tile).insert(second, second_tile)) == composed(
            grid,
            tiles.insert(second, second_tile).insert(first, first_tile),
        ),
{
    assert(tiles.insert(first, first_tile).insert(second, second_tile) =~= tiles.insert(
        second,
        second_tile,
    ).insert(first, first_tile));
}

} // verus!
