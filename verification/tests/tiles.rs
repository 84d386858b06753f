use immediate_earth::codec::RawImage;
use immediate_earth::raster::Pixel;
use immediate_earth::tiles::{
    accept_tile, is_no_data, read_tile, TileError, TileGridSpec, TileRequest,
    BROWSER_USER_AGENT, NO_DATA_BYTE_LENGTH, PROVIDER_BASE_URL,
};
use immediate_earth::time::{CivilTime, ImageryTimestamp};
use std::io::Cursor;

fn timestamp(year: i32, month: u32, day: u32, hour: u32, minute: u32) -> ImageryTimestamp {
    ImageryTimestamp::quantize(CivilTime { year, month, day, hour, minute }).unwrap()
}

/// The RGBA bytes of a picture whose pixel at (x, y) is (x, y, seed, 255).
fn rgba(width: u32, height: u32, seed: u8) -> Vec<u8> {
    let mut data = Vec::new();
    for y in 0..height {
        for x in 0..width {
            data.extend_from_slice(&[x as u8, y as u8, seed, 255]);
        }
    }
    data
}

/// A PNG file of such a picture.
fn png(width: u32, height: u32, seed: u8) -> Vec<u8> {
    let picture = image::RgbaImage::from_raw(width, height, rgba(width, height, seed)).unwrap();
    let mut file = Cursor::new(Vec::new());
    picture.write_to(&mut file, image::ImageFormat::Png).unwrap();
    file.into_inner()
}

fn small_grid() -> TileGridSpec {
    TileGridSpec { grid_dimension: 2, tile_edge_length: 3 }
}

#[test]
fn provider_constants_are_as_published() {
    assert_eq!(PROVIDER_BASE_URL, "https://himawari.asia/img/D531106");
    assert!(BROWSER_USER_AGENT.starts_with("Mozilla/5.0"));
    assert_eq!(NO_DATA_BYTE_LENGTH, 2834);
}

#[test]
fn standard_grid_is_four_by_four_tiles_of_550() {
    let grid = TileGridSpec::standard();
    assert_eq!(grid, TileGridSpec { grid_dimension: 4, tile_edge_length: 550 });
    assert_eq!(grid.checked_canvas_edge(), Some(2200));
}

#[test]
fn canvas_edge_is_dimension_times_tile_edge() {
    assert_eq!(small_grid().checked_canvas_edge(), Some(6));
    let empty = TileGridSpec { grid_dimension: 0, tile_edge_length: 550 };
    assert_eq!(empty.checked_canvas_edge(), Some(0));
    let single = TileGridSpec { grid_dimension: 1, tile_edge_length: 1 };
    assert_eq!(single.checked_canvas_edge(), Some(1));
}

#[test]
fn canvas_edge_is_refused_for_an_infeasible_grid() {
    let flat = TileGridSpec { grid_dimension: 4, tile_edge_length: 0 };
    assert_eq!(flat.checked_canvas_edge(), None);
    let wide = TileGridSpec { grid_dimension: 65_536, tile_edge_length: 65_536 };
    assert_eq!(wide.checked_canvas_edge(), None);
    let huge = TileGridSpec { grid_dimension: u32::MAX, tile_edge_length: 1 };
    assert_eq!(huge.checked_canvas_edge(), None);
}

#[test]
fn requests_go_column_by_column_from_the_top_down() {
    let grid = TileGridSpec::standard();
    let ts = timestamp(2024, 1, 2, 3, 10);
    let mut cells = Vec::new();
    let mut index: u64 = 0;
    while let Some(request) = grid.request_at(index, ts) {
        assert_eq!(request.grid_dimension, 4);
        assert_eq!(request.timestamp, ts);
        cells.push((request.col, request.row));
        index += 1;
    }
    assert_eq!(cells.len(), 16);
    assert_eq!(&cells[..6], &[(0, 0), (0, 1), (0, 2), (0, 3), (1, 0), (1, 1)]);
    assert_eq!(cells[15], (3, 3));
    assert!(grid.request_at(16, ts).is_none());
    assert!(grid.request_at(u64::MAX, ts).is_none());
}

#[test]
fn grid_without_cells_has_no_requests() {
    let grid = TileGridSpec { grid_dimension: 0, tile_edge_length: 550 };
    assert!(grid.request_at(0, timestamp(2024, 1, 2, 3, 10)).is_none());
}

#[test]
fn url_follows_the_template_of_the_provider() {
    let request = TileRequest {
        row: 1,
        col: 2,
        timestamp: timestamp(2024, 1, 2, 3, 17),
        grid_dimension: 4,
    };
    assert_eq!(
        request.url(PROVIDER_BASE_URL, 550),
        "https://himawari.asia/img/D531106/4d/550/2024/01/02/031000_2_1.png"
    );
    let request = TileRequest {
        row: 0,
        col: 0,
        timestamp: timestamp(2023, 12, 31, 23, 59),
        grid_dimension: 8,
    };
    assert_eq!(
        request.url("http://localhost:8080/img", 275),
        "http://localhost:8080/img/8d/275/2023/12/31/235000_0_0.png"
    );
}

#[test]
fn url_agrees_with_the_formatter() {
    let ts = timestamp(2024, 6, 7, 8, 49);
    for (col, row) in [(0u32, 0u32), (3, 0), (0, 3), (2, 1)] {
        let request = TileRequest { row, col, timestamp: ts, grid_dimension: 4 };
        let want = format!(
            "https://himawari.asia/img/D531106/{}d/550/{}/{}/{}/{}{}00_{}_{}.png",
            4, "2024", "06", "07", "08", "40", col, row
        );
        assert_eq!(request.url(PROVIDER_BASE_URL, 550), want);
    }
}

#[test]
fn offset_is_column_across_and_row_down() {
    let ts = timestamp(2024, 1, 2, 3, 10);
    let request = TileRequest { row: 1, col: 3, timestamp: ts, grid_dimension: 4 };
    assert_eq!(request.offset(550), Some((1650, 550)));
    let origin = TileRequest { row: 0, col: 0, timestamp: ts, grid_dimension: 4 };
    assert_eq!(origin.offset(550), Some((0, 0)));
    let far = TileRequest { row: 2, col: u32::MAX, timestamp: ts, grid_dimension: 4 };
    assert_eq!(far.offset(2), None);
    let low = TileRequest { row: u32::MAX, col: 1, timestamp: ts, grid_dimension: 4 };
    assert_eq!(low.offset(2), None);
}

#[test]
fn placeholder_is_known_by_its_length() {
    assert!(is_no_data(2834));
    assert!(!is_no_data(2833));
    assert!(!is_no_data(2835));
    assert!(!is_no_data(0));
}

#[test]
fn tile_is_read_from_a_png_of_the_right_size() {
    let tile = read_tile(&small_grid(), 1, 0, &png(3, 3, 9)).unwrap();
    assert_eq!(tile.size(), (3, 3));
    assert_eq!(tile.pixel(2, 1), Some(Pixel { r: 2, g: 1, b: 9, a: 255 }));
    assert_eq!(tile.into_raw(), rgba(3, 3, 9));
}

#[test]
fn tile_of_another_size_is_refused() {
    let res = read_tile(&small_grid(), 1, 0, &png(3, 4, 9));
    assert_eq!(res.err(), Some(TileError::WrongSize { row: 1, col: 0, width: 3, height: 4 }));
    let res = read_tile(&small_grid(), 0, 1, &png(2, 3, 9));
    assert_eq!(res.err(), Some(TileError::WrongSize { row: 0, col: 1, width: 2, height: 3 }));
}

#[test]
fn bytes_that_are_no_image_are_refused() {
    let res = read_tile(&small_grid(), 1, 1, b"<html>blocked</html>");
    assert!(matches!(res, Err(TileError::Undecodable { row: 1, col: 1, .. })));
    let res = read_tile(&small_grid(), 0, 0, &[]);
    assert!(matches!(res, Err(TileError::Undecodable { row: 0, col: 0, .. })));
    let mut cut = png(3, 3, 9);
    cut.truncate(20);
    let res = read_tile(&small_grid(), 0, 1, &cut);
    assert!(matches!(res, Err(TileError::Undecodable { row: 0, col: 1, .. })));
}

#[test]
fn placeholder_is_refused_whatever_it_holds() {
    let body = vec![7u8; NO_DATA_BYTE_LENGTH];
    let res = read_tile(&small_grid(), 0, 1, &body);
    assert_eq!(res.err(), Some(TileError::NoData { row: 0, col: 1 }));
    let decoded = Ok(RawImage { width: 3, height: 3, data: rgba(3, 3, 1) });
    let res = accept_tile(&small_grid(), 1, 0, NO_DATA_BYTE_LENGTH, decoded);
    assert_eq!(res.err(), Some(TileError::NoData { row: 1, col: 0 }));
}

#[test]
fn decoder_outcome_decides_what_a_response_is_worth() {
    let grid = small_grid();
    let good = Ok(RawImage { width: 3, height: 3, data: rgba(3, 3, 1) });
    assert_eq!(accept_tile(&grid, 0, 0, 100, good).unwrap().into_raw(), rgba(3, 3, 1));
    let failed = Err(String::from("bad magic"));
    assert_eq!(
        accept_tile(&grid, 0, 1, 100, failed).err(),
        Some(TileError::Undecodable { row: 0, col: 1, detail: String::from("bad magic") })
    );
    let large = Ok(RawImage { width: 4, height: 3, data: rgba(4, 3, 1) });
    assert_eq!(
        accept_tile(&grid, 1, 1, 100, large).err(),
        Some(TileError::WrongSize { row: 1, col: 1, width: 4, height: 3 })
    );
    let short = Ok(RawImage { width: 3, height: 3, data: vec![0; 35] });
    assert_eq!(
        accept_tile(&grid, 1, 0, 100, short).err(),
        Some(TileError::BrokenBuffer { row: 1, col: 0, byte_length: 35 })
    );
    let long = Ok(RawImage { width: 4, height: 3, data: vec![0; 36] });
    assert_eq!(
        accept_tile(&grid, 1, 0, 100, long).err(),
        Some(TileError::WrongSize { row: 1, col: 0, width: 4, height: 3 })
    );
}

#[test]
fn messages_name_the_stage_and_the_cell() {
    assert_eq!(
        TileError::NoData { row: 1, col: 2 }.message(),
        "本次爬取失败，tile(2,1)大小异常"
    );
    assert_eq!(
        TileError::Undecodable { row: 0, col: 0, detail: String::from("bad magic") }.message(),
        "Failed to decode tile: bad magic"
    );
    assert_eq!(
        TileError::WrongSize { row: 3, col: 0, width: 549, height: 550 }.message(),
        "Failed to accept tile: tile(0,3) is 549x550"
    );
    assert_eq!(
        TileError::BrokenBuffer { row: 3, col: 0, byte_length: 35 }.message(),
        "Failed to accept tile: tile(0,3) came in a buffer of 35 bytes"
    );
    assert_eq!(
        TileError::OutOfGrid { row: 4, col: 1 }.message(),
        "Failed to place tile: the grid has no tile(1,4)"
    );
    assert_eq!(
        TileError::Missing { row: 2, col: 3 }.message(),
        "Failed to finish mosaic: tile(3,2) is missing"
    );
    assert_eq!(
        TileError::InfeasibleGrid { grid_dimension: 4, tile_edge_length: 0 }.message(),
        "Failed to create mosaic: no canvas for 4 tiles of 0 pixels a side"
    );
}
