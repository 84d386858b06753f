use immediate_earth::border::{add_border, border_width, BORDER_DIVISOR};
use immediate_earth::raster::{Pixel, Raster};

fn gradient(width: u32, height: u32) -> Raster {
    let mut data = Vec::new();
    for y in 0..height {
        for x in 0..width {
            data.extend_from_slice(&[x as u8, y as u8, 77, 200]);
        }
    }
    Raster::from_raw(width, height, data).unwrap()
}

#[test]
fn border_is_a_tenth_of_the_width_rounded() {
    assert_eq!(BORDER_DIVISOR, 10);
    assert_eq!(border_width(0), 0);
    assert_eq!(border_width(4), 0);
    assert_eq!(border_width(5), 1);
    assert_eq!(border_width(10), 1);
    assert_eq!(border_width(14), 1);
    assert_eq!(border_width(15), 2);
    assert_eq!(border_width(2200), 220);
    assert_eq!(border_width(2204), 220);
    assert_eq!(border_width(2205), 221);
    assert_eq!(border_width(u32::MAX), 429_496_730);
}

#[test]
fn border_width_agrees_with_rounding_in_floating_point() {
    for width in 0..5000u32 {
        assert_eq!(border_width(width), (width as f32 / 10.0).round() as u32);
    }
}

#[test]
fn bordered_picture_grows_by_twice_the_border_each_way() {
    let framed = add_border(&gradient(20, 10)).unwrap();
    assert_eq!(framed.size(), (24, 14));
    let framed = add_border(&gradient(25, 40)).unwrap();
    assert_eq!(framed.size(), (31, 46));
    let framed = add_border(&gradient(4, 4)).unwrap();
    assert_eq!(framed.size(), (4, 4));
}

#[test]
fn border_is_opaque_black_and_the_picture_sits_inside() {
    let framed = add_border(&gradient(20, 10)).unwrap();
    for y in 0..14 {
        for x in 0..24 {
            let inside = (2..22).contains(&x) && (2..12).contains(&y);
            let want = if inside {
                Pixel { r: (x - 2) as u8, g: (y - 2) as u8, b: 77, a: 200 }
            } else {
                Pixel::opaque_black()
            };
            assert_eq!(framed.pixel(x, y), Some(want));
        }
    }
}

#[test]
fn cutting_the_border_off_gives_the_picture_back() {
    for (width, height) in [(20u32, 10u32), (25, 40), (1, 1), (9, 3), (15, 15)] {
        let picture = gradient(width, height);
        let border = border_width(width);
        let framed = add_border(&picture).unwrap();
        let back = framed.crop(border, border, width, height);
        assert_eq!(back.into_raw(), gradient(width, height).into_raw());
    }
}

#[test]
fn border_of_an_empty_picture_is_empty() {
    let framed = add_border(&Raster::empty()).unwrap();
    assert_eq!(framed.size(), (0, 0));
    let framed = add_border(&gradient(0, 5)).unwrap();
    assert_eq!(framed.size(), (0, 5));
}

#[test]
fn border_of_a_flat_picture_is_all_border() {
    let framed = add_border(&gradient(20, 0)).unwrap();
    assert_eq!(framed.size(), (24, 4));
    assert_eq!(framed.pixel(12, 2), Some(Pixel::opaque_black()));
}
