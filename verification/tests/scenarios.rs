use immediate_earth::border::{add_border, border_width};
use immediate_earth::cropper::{
    crop_for_display, plan_crop, CropPlan, CropPolicy, CropRect, DayPhase, Trim,
};
use immediate_earth::displays::DisplayGeometry;
use immediate_earth::codec::{read_png, write_png};
use immediate_earth::mosaic::{stitch, Mosaic};
use immediate_earth::paths::{bordered_file_name, mosaic_file_name, wallpaper_file_name};
use immediate_earth::raster::{Pixel, Raster};
use immediate_earth::tiles::{
    read_tile, TileError, TileGridSpec, NO_DATA_BYTE_LENGTH, PROVIDER_BASE_URL,
};
use immediate_earth::time::imagery_timestamp_at;

fn full_hd() -> DisplayGeometry {
    DisplayGeometry {
        width: 1920,
        height: 1080,
        effective_width: 1920,
        effective_height: 1080,
        is_primary: true,
    }
}

#[test]
fn standard_grid_gives_2200_mosaic_and_2640_bordered() {
    let grid = TileGridSpec::standard();
    assert_eq!(grid.checked_canvas_edge(), Some(2200));
    let mut mosaic = Mosaic::new(grid).unwrap();
    let tile = Raster::filled(550, 550, Pixel { r: 9, g: 8, b: 7, a: 255 }).unwrap();
    for row in 0..4 {
        for col in 0..4 {
            mosaic.place_tile(row, col, &tile).unwrap();
        }
    }
    let merged = mosaic.finish().unwrap();
    assert_eq!((merged.width(), merged.height()), (2200, 2200));
    assert_eq!(border_width(2200), 220);
    let bordered = add_border(&merged).unwrap();
    assert_eq!((bordered.width(), bordered.height()), (2640, 2640));
    assert_eq!(bordered.pixel(0, 0), Some(Pixel::opaque_black()));
    assert_eq!(bordered.pixel(219, 1000), Some(Pixel::opaque_black()));
    assert_eq!(bordered.pixel(220, 220), Some(Pixel { r: 9, g: 8, b: 7, a: 255 }));
    assert_eq!(bordered.pixel(2419, 2419), Some(Pixel { r: 9, g: 8, b: 7, a: 255 }));
    assert_eq!(bordered.pixel(2420, 2419), Some(Pixel::opaque_black()));
}

#[test]
fn placeholder_response_fails_and_names_the_cell() {
    let grid = TileGridSpec::standard();
    let body = vec![0u8; NO_DATA_BYTE_LENGTH];
    assert_eq!(body.len(), 2834);
    let res = read_tile(&grid, 1, 2, &body);
    assert_eq!(res.err(), Some(TileError::NoData { row: 1, col: 2 }));
    let mosaic = Mosaic::new(grid).unwrap();
    assert_eq!(mosaic.finish().err(), Some(TileError::Missing { row: 0, col: 0 }));
}

#[test]
fn full_hd_display_crops_2640_square_to_2640_by_1485_from_the_top() {
    let policy = CropPolicy::standard();
    let plan = plan_crop(2640, 2640, &full_hd(), DayPhase::Daytime, &policy);
    assert_eq!(
        plan,
        Ok(CropPlan {
            trim: Trim::Keep,
            rect: CropRect { x: 0, y: 0, width: 2640, height: 1485 },
        })
    );
    let mut source = Raster::filled(264, 264, Pixel { r: 1, g: 1, b: 1, a: 255 }).unwrap();
    let marker = Raster::filled(1, 1, Pixel { r: 200, g: 0, b: 0, a: 255 }).unwrap();
    source.paste(&marker, 5, 0);
    let out = crop_for_display(&source, &full_hd(), DayPhase::Daytime, &policy).unwrap();
    assert_eq!((out.width(), out.height()), (264, 149));
    assert_eq!(out.pixel(5, 0), Some(Pixel { r: 200, g: 0, b: 0, a: 255 }));
}

fn numbered_tile_png(row: u32, col: u32, edge: u32) -> Vec<u8> {
    let mut data = Vec::new();
    for j in 0..edge {
        for i in 0..edge {
            data.extend_from_slice(&[(16 * row + col) as u8, i as u8, j as u8, 255]);
        }
    }
    let picture = image::RgbaImage::from_raw(edge, edge, data).unwrap();
    let mut file = std::io::Cursor::new(Vec::new());
    picture.write_to(&mut file, image::ImageFormat::Png).unwrap();
    file.into_inner()
}

#[test]
fn refresh_from_responses_to_a_wallpaper_file() {
    // 2024-01-02 03:47:12 UTC.
    let now: i64 = 1_704_153_600 + 3 * 3600 + 47 * 60 + 12;
    let timestamp = imagery_timestamp_at(now).unwrap();
    let grid = TileGridSpec { grid_dimension: 4, tile_edge_length: 10 };

    let mut urls = Vec::new();
    let mut bodies = Vec::new();
    let mut index: u64 = 0;
    while let Some(request) = grid.request_at(index, timestamp) {
        urls.push(request.url(PROVIDER_BASE_URL, 550));
        bodies.push(numbered_tile_png(request.row, request.col, 10));
        index += 1;
    }
    assert_eq!(urls.len(), 16);
    assert_eq!(urls[0], "https://himawari.asia/img/D531106/4d/550/2024/01/02/031000_0_0.png");
    assert_eq!(urls[1], "https://himawari.asia/img/D531106/4d/550/2024/01/02/031000_0_1.png");
    assert_eq!(urls[4], "https://himawari.asia/img/D531106/4d/550/2024/01/02/031000_1_0.png");
    assert_eq!(urls[15], "https://himawari.asia/img/D531106/4d/550/2024/01/02/031000_3_3.png");

    let merged = stitch(&grid, &bodies).unwrap();
    assert_eq!(merged.size(), (40, 40));
    assert_eq!(merged.pixel(35, 12), Some(Pixel { r: 16 + 3, g: 5, b: 2, a: 255 }));
    assert_eq!(mosaic_file_name(&timestamp), "earth_20240102_0310.png");

    let bordered = add_border(&merged).unwrap();
    assert_eq!(bordered.size(), (48, 48));
    assert_eq!(bordered_file_name(&timestamp), "earth_20240102_0310_black.png");

    let stored = write_png(&bordered).unwrap();
    let source = read_png(&stored).unwrap();
    assert_eq!(source.as_bytes(), bordered.as_bytes());

    let policy = CropPolicy::standard();
    let wallpaper = crop_for_display(&source, &full_hd(), DayPhase::Daytime, &policy).unwrap();
    assert_eq!(wallpaper.size(), (48, 27));
    assert_eq!(wallpaper.pixel(4 + 35, 4 + 12), Some(Pixel { r: 16 + 3, g: 5, b: 2, a: 255 }));
    assert_eq!(wallpaper.pixel(0, 26), Some(Pixel::opaque_black()));
    assert_eq!(wallpaper_file_name(full_hd().width, full_hd().height), "wallpaper_1920x1080.png");
    assert!(write_png(&wallpaper).is_ok());
}
