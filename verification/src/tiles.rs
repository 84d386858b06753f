//! The tile grid of the imagery provider: which tiles to ask for, under what
//! address, and what to make of the bytes that come back.

use crate::codec::{decode_png, decoded_png, decoder_outcome, RawImage};
use crate::raster::{byte_len, fits_raster, picture_of_bytes, Picture, Raster};
use crate::text::{decimal, padded, push_decimal, push_padded, push_signed, signed_decimal};
use crate::time::{CivilTime, ImageryTimestamp};
use vstd::prelude::*;

verus! {

/// Where the provider keeps its full-disk imagery.
pub const PROVIDER_BASE_URL: &'static str = "https://himawari.asia/img/D531106";

/// The provider turns away clients that do not name a browser.
pub const BROWSER_USER_AGENT: &'static str =
    "Mozilla/5.0 (Windows NT 10.0; Win64; x64) AppleWebKit/537.36 (KHTML, like Gecko) Chrome/91.0.4472.124 Safari/537.36";

/// The provider answers a request for a tile it does not have with a
/// placeholder image of exactly this many bytes.
pub const NO_DATA_BYTE_LENGTH: usize = 2834;

/// The shape of the tile grid: `grid_dimension` tiles in each direction, each
/// tile `tile_edge_length` pixels square.
#[derive(Clone, Copy, Debug, PartialEq, Eq, Structural)]
pub struct TileGridSpec {
    pub grid_dimension: u32,
    pub tile_edge_length: u32,
}

impl TileGridSpec {
    /// The grid that the pipeline fetches: four by four tiles of 550 pixels.
    pub fn standard() -> (grid: TileGridSpec)
        ensures
            grid.grid_dimension == 4,
            grid.tile_edge_length == 550,
            grid.feasible(),
    {
        assert(byte_len(2200, 2200) == 19_360_000) by (nonlinear_arith);
        TileGridSpec { grid_dimension: 4, tile_edge_length: 550 }
    }

    /// The edge of the assembled mosaic, in pixels.
    pub open spec fn canvas_edge(self) -> nat {
        (self.grid_dimension * self.tile_edge_length) as nat
    }

    /// The tiles have pixels, and the assembled mosaic fits into one buffer.
    pub open spec fn feasible(self) -> bool {
        &&& self.tile_edge_length >= 1
        &&& self.canvas_edge() <= u32::MAX
        &&& byte_len(self.canvas_edge(), self.canvas_edge()) <= isize::MAX
    }

    /// `(row, col)` names a cell of the grid.
    pub open spec fn has_cell(self, row: int, col: int) -> bool {
        0 <= row < self.grid_dimension && 0 <= col < self.grid_dimension
    }

    /// The edge of the assembled mosaic, if the grid is feasible.
    pub fn checked_canvas_edge(&self) -> (edge: Option<u32>)
        ensures
            edge is Some <==> self.feasible(),
            edge matches Some(e) ==> e == self.canvas_edge(),
    {
        if self.tile_edge_length == 0 {
            return None;
        }
        assert(self.grid_dimension * self.tile_edge_length <= 0xffff_ffff * 0xffff_ffff)
            by (nonlinear_arith)
            requires
                0 <= self.grid_dimension <= 0xffff_ffff,
                0 <= self.tile_edge_length <= 0xffff_ffff,
        ;
        let edge: u64 = (self.grid_dimension as u64) * (self.tile_edge_length as u64);
        if edge > u32::MAX as u64 {
            return None;
        }
        assert(edge * edge <= 0xffff_ffff * 0xffff_ffff) by (nonlinear_arith)
            requires
                0 <= edge <= 0xffff_ffff,
        ;
        let pixels: u64 = edge * edge;
        if pixels > (isize::MAX as u64) / 4 {
            return None;
        }
        Some(edge as u32)
    }

    /// How many tiles the grid has.
    pub open spec fn cell_count(self) -> nat {
        (self.grid_dimension * self.grid_dimension) as nat
    }

    /// The `index`-th request of a refresh, in the order in which the tiles
    /// are fetched: column by column, each column from the top down. `None`
    /// behind the last tile.
    pub fn request_at(&self, index: u64, timestamp: ImageryTimestamp) -> (request: Option<
        TileRequest,
    >)
        ensures
            request is Some <==> index < self.cell_count(),
            request matches Some(r) ==> {
                &&& r.col == index / (self.grid_dimension as u64)
                &&& r.row == index % (self.grid_dimension as u64)
                &&& self.has_cell(r.row as int, r.col as int)
                &&& r.col * self.grid_dimension + r.row == index
                &&& r.timestamp == timestamp
                &&& r.grid_dimension == self.grid_dimension
            },
    {
        assert(self.grid_dimension * self.grid_dimension <= 0xffff_ffff * 0xffff_ffff)
            by (nonlinear_arith)
            requires
                0 <= self.grid_dimension <= 0xffff_ffff,
        ;
        let n: u64 = self.grid_dimension as u64;
        if index >= n * n {
            return None;
        }
        assert(n > 0) by (nonlinear_arith)
            requires
                index < n * n,
                index >= 0,
                n >= 0,
        ;
        let col: u64 = index / n;
        let row: u64 = index % n;
        assert(col < n) by (nonlinear_arith)
            requires
                col == index / n,
                index < n * n,
                n > 0,
                index >= 0,
        ;
        proof {
            vstd::arithmetic::div_mod::lemma_fundamental_div_mod(index as int, n as int);
            assert((n as int) * (col as int) == col * n) by (nonlinear_arith);
        }
        Some(
            TileRequest {
                row: row as u32,
                col: col as u32,
                timestamp,
                grid_dimension: self.grid_dimension,
            },
        )
    }
}

/// One tile to fetch: a cell of the grid at an imagery timestamp.
#[derive(Clone, Copy, Debug)]
pub struct TileRequest {
    pub row: u32,
    pub col: u32,
    pub timestamp: ImageryTimestamp,
    pub grid_dimension: u32,
}

/// The address of a tile:
/// `{base}/{grid}d/{edge}/{year}/{month}/{day}/{hour}{minute}00_{col}_{row}.png`,
/// month, day, hour and minute with two digits.
pub open spec fn tile_url_text(
    base: Seq<char>,
    grid_dimension: nat,
    tile_edge_length: nat,
    at: CivilTime,
    col: nat,
    row: nat,
) -> Seq<char> {
    base + "/"@ + decimal(grid_dimension) + "d/"@ + decimal(tile_edge_length) + "/"@
        + signed_decimal(at.year as int) + "/"@ + padded(at.month as nat, 2) + "/"@ + padded(
        at.day as nat,
        2,
    ) + "/"@ + padded(at.hour as nat, 2) + padded(at.minute as nat, 2) + "00_"@ + decimal(col)
        + "_"@ + decimal(row) + ".png"@
}

impl TileRequest {
    /// The address under which the provider at `base` serves this tile.
    pub fn url(&self, base: &str, tile_edge_length: u32) -> (url: String)
        ensures
            url@ == tile_url_text(
                base@,
                self.grid_dimension as nat,
                tile_edge_length as nat,
                self.timestamp@,
                self.col as nat,
                self.row as nat,
            ),
    {
        let mut url = String::from_str(base);
        url.append("/");
        push_decimal(&mut url, self.grid_dimension as u64);
        url.append("d/");
        push_decimal(&mut url, tile_edge_length as u64);
        url.append("/");
        push_signed(&mut url, self.timestamp.year() as i64);
        url.append("/");
        push_padded(&mut url, self.timestamp.month() as u64, 2);
        url.append("/");
        push_padded(&mut url, self.timestamp.day() as u64, 2);
        url.append("/");
        push_padded(&mut url, self.timestamp.hour() as u64, 2);
        push_padded(&mut url, self.timestamp.minute() as u64, 2);
        url.append("00_");
        push_decimal(&mut url, self.col as u64);
        url.append("_");
        push_decimal(&mut url, self.row as u64);
        url.append(".png");
        url
    }

    /// Where the top-left pixel of this tile goes on the canvas: the column
    /// gives the horizontal offset, the row the vertical one.
    pub fn offset(&self, tile_edge_length: u32) -> (at: Option<(u32, u32)>)
        ensures
            at is Some <==> self.col * tile_edge_length <= u32::MAX && self.row * tile_edge_length
                <= u32::MAX,
            at matches Some((x, y)) ==> x == self.col * tile_edge_length && y == self.row
                * tile_edge_length,
    {
        match (self.col.checked_mul(tile_edge_length), self.row.checked_mul(tile_edge_length)) {
            (Some(x), Some(y)) => Some((x, y)),
            _ => None,
        }
    }
}

/// What went wrong with a tile.
#[derive(Debug, PartialEq, Eq)]
pub enum TileError {
    /// The provider sent its placeholder in place of the tile.
    NoData { row: u32, col: u32 },
    /// The bytes are no image; `detail` is the decoder's message.
    Undecodable { row: u32, col: u32, detail: String },
    /// The image does not have the size of a tile of the grid.
    WrongSize { row: u32, col: u32, width: u32, height: u32 },
    /// The image has the size of a tile, but the decoder's buffer does not
    /// have the length of an image of that size.
    BrokenBuffer { row: u32, col: u32, byte_length: usize },
    /// The grid has no such cell.
    OutOfGrid { row: u32, col: u32 },
    /// The mosaic still lacks the tile of this cell.
    Missing { row: u32, col: u32 },
    /// The grid has tiles without pixels, or its mosaic is too large for a raster.
    InfeasibleGrid { grid_dimension: u32, tile_edge_length: u32 },
}

impl TileError {
    /// What the user is told: the stage that failed and the cell, column
    /// before row as in the tile's address.
    pub open spec fn message_text(self) -> Seq<char> {
        match self {
            TileError::NoData { row, col } => "本次爬取失败，tile("@ + decimal(col as nat) + ","@
                + decimal(row as nat) + ")大小异常"@,
            TileError::Undecodable { row, col, detail } => "Failed to decode tile: "@ + detail@,
            TileError::WrongSize { row, col, width, height } => "Failed to accept tile: tile("@
                + decimal(col as nat) + ","@ + decimal(row as nat) + ") is "@ + decimal(
                width as nat,
            ) + "x"@ + decimal(height as nat),
            TileError::BrokenBuffer { row, col, byte_length } => "Failed to accept tile: tile("@
                + decimal(col as nat) + ","@ + decimal(row as nat) + ") came in a buffer of "@
                + decimal(byte_length as nat) + " bytes"@,
            TileError::OutOfGrid { row, col } => "Failed to place tile: the grid has no tile("@
                + decimal(col as nat) + ","@ + decimal(row as nat) + ")"@,
            TileError::Missing { row, col } => "Failed to finish mosaic: tile("@ + decimal(
                col as nat,
            ) + ","@ + decimal(row as nat) + ") is missing"@,
            TileError::InfeasibleGrid { grid_dimension, tile_edge_length } =>
                "Failed to create mosaic: no canvas for "@ + decimal(grid_dimension as nat)
                    + " tiles of "@ + decimal(tile_edge_length as nat) + " pixels a side"@,
        }
    }

    /// What the user is told.
    pub fn message(&self) -> (message: String)
        ensures
            message@ == self.message_text(),
    {
        match self {
            TileError::NoData { row, col } => {
                let mut message = String::from_str("本次爬取失败，tile(");
                push_decimal(&mut message, *col as u64);
                message.append(",");
                push_decimal(&mut message, *row as u64);
                message.append(")大小异常");
                message
            },
            TileError::Undecodable { row, col, detail } => {
                let mut message = String::from_str("Failed to decode tile: ");
                message.append(detail.as_str());
                message
            },
            TileError::WrongSize { row, col, width, height } => {
                let mut message = String::from_str("Failed to accept tile: tile(");
                push_decimal(&mut message, *col as u64);
                message.append(",");
                push_decimal(&mut message, *row as u64);
                message.append(") is ");
                push_decimal(&mut message, *width as u64);
                message.append("x");
                push_decimal(&mut message, *height as u64);
                message
            },
            TileError::BrokenBuffer { row, col, byte_length } => {
                let mut message = String::from_str("Failed to accept tile: tile(");
                push_decimal(&mut message, *col as u64);
                message.append(",");
                push_decimal(&mut message, *row as u64);
                message.append(") came in a buffer of ");
                push_decimal(&mut message, *byte_length as u64);
                message.append(" bytes");
                message
            },
            TileError::OutOfGrid { row, col } => {
                let mut message = String::from_str("Failed to place tile: the grid has no tile(");
                push_decimal(&mut message, *col as u64);
                message.append(",");
                push_decimal(&mut message, *row as u64);
                message.append(")");
                message
            },
            TileError::Missing { row, col } => {
                let mut message = String::from_str("Failed to finish mosaic: tile(");
                push_decimal(&mut message, *col as u64);
                message.append(",");
                push_decimal(&mut message, *row as u64);
                message.append(") is missing");
                message
            },
            TileError::InfeasibleGrid { grid_dimension, tile_edge_length } => {
                let mut message = String::from_str("Failed to create mosaic: no canvas for ");
                push_decimal(&mut message, *grid_dimension as u64);
                message.append(" tiles of ");
                push_decimal(&mut message, *tile_edge_length as u64);
                message.append(" pixels a side");
                message
            },
        }
    }
}

/// Whether a response of this many bytes is the provider's placeholder.
pub fn is_no_data(byte_length: usize) -> (no_data: bool)
    ensures
        no_data == (byte_length == NO_DATA_BYTE_LENGTH),
{
    byte_length == NO_DATA_BYTE_LENGTH
}

/// The tile that a response of `byte_length` bytes holds, given what the
/// decoder made of it: none if the response is the provider's placeholder,
/// whatever it decodes to; none if the decoder found no image; none unless
/// the image is exactly one tile large.
pub open spec fn accepted(
    grid: TileGridSpec,
    byte_length: nat,
    decoded: Option<(u32, u32, Seq<u8>)>,
) -> Option<Picture> {
    if byte_length == NO_DATA_BYTE_LENGTH {
        None
    } else {
        match decoded {
            Some((width, height, data)) => if width == grid.tile_edge_length && height
                == grid.tile_edge_length && fits_raster(width as nat, height as nat, data.len()) {
                Some(picture_of_bytes(width as nat, height as nat, data))
            } else {
                None
            },
            None => None,
        }
    }
}

/// `error` is what the refusal of such a response as the tile of cell
/// `(row, col)` says. It names the cell and what is wrong: the response is
/// the placeholder; or else the decoder found no image; or else the image is
/// not one tile large; or else its buffer does not have the length of a tile.
pub open spec fn refusal(
    grid: TileGridSpec,
    row: u32,
    col: u32,
    byte_length: nat,
    decoded: Option<(u32, u32, Seq<u8>)>,
    error: TileError,
) -> bool {
    match error {
        TileError::NoData { row: r, col: c } => r == row && c == col && byte_length
            == NO_DATA_BYTE_LENGTH,
        TileError::Undecodable { row: r, col: c, detail } => r == row && c == col && byte_length
            != NO_DATA_BYTE_LENGTH && decoded is None,
        TileError::WrongSize { row: r, col: c, width, height } => {
            &&& r == row && c == col
            &&& byte_length != NO_DATA_BYTE_LENGTH
            &&& decoded matches Some((w, h, data))
            &&& width == w && height == h
            &&& (w != grid.tile_edge_length || h != grid.tile_edge_length)
        },
        TileError::BrokenBuffer { row: r, col: c, byte_length: length } => {
            &&& r == row && c == col
            &&& byte_length != NO_DATA_BYTE_LENGTH
            &&& decoded matches Some((w, h, data))
            &&& w == grid.tile_edge_length && h == grid.tile_edge_length
            &&& length == data.len()
            &&& !fits_raster(w as nat, h as nat, data.len())
        },
        TileError::OutOfGrid { .. } => false,
        TileError::Missing { .. } => false,
        TileError::InfeasibleGrid { .. } => false,
    }
}

/// A response is refused exactly where it holds no tile.
pub proof fn lemma_refused_holds_no_tile(
    grid: TileGridSpec,
    row: u32,
    col: u32,
    byte_length: nat,
    decoded: Option<(u32, u32, Seq<u8>)>,
    error: TileError,
)
    requires
        refusal(grid, row, col, byte_length, decoded, error),
    ensures
        accepted(grid, byte_length, decoded) is None,
{
}

/// The tile that the provider's response `body` holds, if it holds one.
pub open spec fn tile_in(grid: TileGridSpec, body: Seq<u8>) -> Option<Picture> {
    accepted(grid, body.len(), decoded_png(body))
}

/// What a response of `byte_length` bytes is worth as the tile of cell
/// `(row, col)`, given what the decoder made of it.
///
/// A placeholder is refused whatever it decodes to; bytes that are no image
/// are refused, with the decoder's message; an image is refused unless it is
/// exactly one tile large.
pub fn accept_tile(
    grid: &TileGridSpec,
    row: u32,
    col: u32,
    byte_length: usize,
    decoded: Result<RawImage, String>,
) -> (res: Result<Raster, TileError>)
    ensures
        match res {
            Ok(tile) => accepted(*grid, byte_length as nat, decoder_outcome(decoded)) == Some(
                tile@,
            ),
            Err(error) => {
                &&& accepted(*grid, byte_length as nat, decoder_outcome(decoded)) is None
                &&& refusal(
                    *grid,
                    row,
                    col,
                    byte_length as nat,
                    decoder_outcome(decoded),
                    error,
                )
                &&& error matches TileError::Undecodable { detail, .. } ==> decoded == Err::<
                    RawImage,
                    String,
                >(detail)
            },
        },
{
    if is_no_data(byte_length) {
        return Err(TileError::NoData { row, col });
    }
    match decoded {
        Err(detail) => Err(TileError::Undecodable { row, col, detail }),
        Ok(raw) => {
            let width = raw.width;
            let height = raw.height;
            if width != grid.tile_edge_length || height != grid.tile_edge_length {
                return Err(TileError::WrongSize { row, col, width, height });
            }
            let byte_length = raw.data.len();
            match Raster::from_raw(width, height, raw.data) {
                Some(tile) => Ok(tile),
                None => Err(TileError::BrokenBuffer { row, col, byte_length }),
            }
        },
    }
}

/// The tile of cell `(row, col)` that the provider's response `bytes` holds.
///
/// The placeholder is refused before anything is decoded. Else the bytes are
/// decoded, and the image is the tile if it is exactly one tile large.
pub fn read_tile(grid: &TileGridSpec, row: u32, col: u32, bytes: &[u8]) -> (res: Result<
    Raster,
    TileError,
>)
    ensures
        match res {
            Ok(tile) => tile_in(*grid, bytes@) == Some(tile@) && tile@.width
                == grid.tile_edge_length && tile@.height == grid.tile_edge_length,
            Err(error) => tile_in(*grid, bytes@) is None && refusal(
                *grid,
                row,
                col,
                bytes@.len(),
                decoded_png(bytes@),
                error,
            ),
        },
{
    if is_no_data(bytes.len()) {
        return Err(TileError::NoData { row, col });
    }
    let decoded = decode_png(bytes);
    accept_tile(grid, row, col, bytes.len(), decoded)
}

} // verus!
