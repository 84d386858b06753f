use immediate_earth::add_suffix_to_filename;
use immediate_earth::paths::{
    bordered_file_name, date_tag, display_directory, extension, file_name, mosaic_file_name,
    tile_file_name, wallpaper_file_name, ARTIFACT_DIRECTORY, BORDERED_SUFFIX, TILE_DIRECTORY,
};
use immediate_earth::time::{CivilTime, ImageryTimestamp};
use std::path::Path;

fn timestamp(year: i32, month: u32, day: u32, hour: u32, minute: u32) -> ImageryTimestamp {
    ImageryTimestamp::quantize(CivilTime { year, month, day, hour, minute }).unwrap()
}

/// What the standard library makes of the same request.
fn by_the_standard_library(path: &str, suffix: &str) -> String {
    let path = Path::new(path);
    let stem = path.file_stem().unwrap_or_default().to_string_lossy();
    let ext = path.extension().unwrap_or_default().to_string_lossy();
    let name = if ext.is_empty() {
        format!("{}{}", stem, suffix)
    } else {
        format!("{}{}.{}", stem, suffix, ext)
    };
    let mut renamed = path.to_path_buf();
    renamed.set_file_name(name);
    renamed.to_string_lossy().into_owned()
}

#[test]
fn directory_names_are_fixed() {
    assert_eq!(ARTIFACT_DIRECTORY, "immediate_earth");
    assert_eq!(TILE_DIRECTORY, "tiles");
    assert_eq!(BORDERED_SUFFIX, "_black");
}

#[test]
fn suffix_goes_between_stem_and_extension() {
    assert_eq!(
        add_suffix_to_filename("earth_20240102_0310.png", "_black"),
        "earth_20240102_0310_black.png"
    );
    assert_eq!(add_suffix_to_filename("a.b.png", "_x"), "a.b_x.png");
    assert_eq!(add_suffix_to_filename("earth.png", ""), "earth.png");
}

#[test]
fn suffix_keeps_the_directories() {
    assert_eq!(
        add_suffix_to_filename("/data/immediate_earth/earth_20240102_0310.png", "_black"),
        "/data/immediate_earth/earth_20240102_0310_black.png"
    );
    assert_eq!(add_suffix_to_filename("data/earth.png", "_black"), "data/earth_black.png");
    assert_eq!(add_suffix_to_filename("/earth.png", "_black"), "/earth_black.png");
}

#[test]
fn suffix_ends_a_name_without_extension() {
    assert_eq!(add_suffix_to_filename("earth", "_black"), "earth_black");
    assert_eq!(add_suffix_to_filename("dir.d/earth", "_black"), "dir.d/earth_black");
    assert_eq!(add_suffix_to_filename("", "_black"), "_black");
}

#[test]
fn suffix_goes_to_the_last_component_of_a_path_that_ends_in_a_separator() {
    assert_eq!(add_suffix_to_filename("a/b/", "_s"), "a/b_s");
    assert_eq!(add_suffix_to_filename("a/b.png/", "_s"), "a/b_s.png");
    assert_eq!(add_suffix_to_filename("a/b.png///", "_s"), "a/b_s.png");
    assert_eq!(add_suffix_to_filename("a/b.png/.", "_s"), "a/b_s.png");
    assert_eq!(add_suffix_to_filename("a/./b.png", "_s"), "a/b_s.png");
    assert_eq!(add_suffix_to_filename("a//b.png", "_s"), "a/b_s.png");
    assert_eq!(add_suffix_to_filename("dir/", "_black"), "dir_black");
}

#[test]
fn path_without_a_file_name_gets_the_suffix_as_a_component() {
    assert_eq!(add_suffix_to_filename("..", "_b"), "../_b");
    assert_eq!(add_suffix_to_filename("a/..", "_b"), "a/../_b");
    assert_eq!(add_suffix_to_filename("/", "_b"), "/_b");
    assert_eq!(add_suffix_to_filename(".", "_b"), "./_b");
    assert_eq!(add_suffix_to_filename("./", "_b"), "./_b");
    assert_eq!(add_suffix_to_filename("", "_b"), "_b");
    assert_eq!(add_suffix_to_filename("a/..", "/b"), "/b");
}

#[test]
fn leading_dot_starts_no_extension() {
    assert_eq!(add_suffix_to_filename(".hidden", "_black"), ".hidden_black");
    assert_eq!(add_suffix_to_filename("dir/.hidden", "_black"), "dir/.hidden_black");
    assert_eq!(add_suffix_to_filename(".hidden.png", "_black"), ".hidden_black.png");
}

#[test]
fn dot_with_nothing_behind_it_is_dropped() {
    assert_eq!(add_suffix_to_filename("earth.", "_black"), "earth_black");
    assert_eq!(add_suffix_to_filename("dir/earth.", "_black"), "dir/earth_black");
}

#[test]
fn suffix_counts_characters_not_bytes() {
    assert_eq!(add_suffix_to_filename("图片/地球.png", "_黑"), "图片/地球_黑.png");
}

#[test]
fn suffix_agrees_with_the_standard_library() {
    let paths = [
        "earth.png",
        "earth",
        "earth.",
        ".earth",
        ".earth.png",
        "a.b.c",
        "dir/earth.png",
        "dir.d/earth",
        "/abs/dir/earth_20240102_0310.png",
        "/earth.png",
        "a/b/c/d.tar.gz",
        "rel/../earth.png",
        "./earth.png",
        "with space/earth one.png",
        "图片/地球.png",
        "",
        "/",
        "//",
        ".",
        "./",
        "..",
        "../",
        "a/..",
        "a/../",
        "../a",
        "a/b/",
        "a/b.png/",
        "a/b.png//",
        "a/b.png/.",
        "a/b.png/./",
        "a/./b.png",
        "a//b.png",
        "/a",
        "//a.png",
        "/.",
        "/..",
        "/./a.png",
        "./.",
        "./..",
        "././a",
        ".a",
        ".a/",
        "..a",
        "..a.png",
        "...",
        "a..",
        "a/...",
        "a/.b/",
        "a/.b./c.",
        "x/y.z/.w",
    ];
    for path in paths {
        for suffix in ["_black", "", ".x", "_黑", "/s", "s/t", "."] {
            assert_eq!(
                add_suffix_to_filename(path, suffix),
                by_the_standard_library(path, suffix),
                "{path} {suffix}"
            );
        }
    }
}

#[test]
fn file_name_is_the_last_component() {
    assert_eq!(file_name("a/b/c.png"), "c.png");
    assert_eq!(file_name("c.png"), "c.png");
    assert_eq!(file_name("a/b/"), "b");
    assert_eq!(file_name("a/b/."), "b");
    assert_eq!(file_name("a//b"), "b");
    assert_eq!(file_name("/"), "");
    assert_eq!(file_name(""), "");
    assert_eq!(file_name("."), "");
    assert_eq!(file_name(".."), "");
    assert_eq!(file_name("a/.."), "");
    assert_eq!(file_name("./a"), "a");
    assert_eq!(file_name("..a"), "..a");
}

#[test]
fn file_name_and_extension_agree_with_the_standard_library() {
    let paths = [
        "", "/", ".", "..", "a", "a/", "a/.", "a/..", "a/b.png", "a/b.png/", "a/b.png/./",
        "/a.b.c", "./x.y", ".x", ".x.y", "x.", "..x", "...", "a/.b/", "//a//b.c//",
    ];
    for path in paths {
        let std_path = Path::new(path);
        let name = std_path.file_name().unwrap_or_default().to_string_lossy().into_owned();
        let ext = std_path.extension().unwrap_or_default().to_string_lossy().into_owned();
        assert_eq!(file_name(path), name, "{path}");
        assert_eq!(extension(path), ext, "{path}");
    }
}

#[test]
fn extension_is_what_follows_the_last_dot_of_the_file_name() {
    assert_eq!(extension("a/b/c.png"), "png");
    assert_eq!(extension("c.tar.gz"), "gz");
    assert_eq!(extension("c"), "");
    assert_eq!(extension("a.b/c"), "");
    assert_eq!(extension("a.b/"), "b");
    assert_eq!(extension(".png"), "");
    assert_eq!(extension("x.png"), "png");
    assert_eq!(extension("c."), "");
    assert_eq!(extension(""), "");
    assert_eq!(extension(".."), "");
    assert_eq!(extension("a/.b.png"), "png");
}

#[test]
fn date_tag_has_four_two_and_two_digits() {
    assert_eq!(date_tag(2024, 1, 2), "20240102");
    assert_eq!(date_tag(2024, 12, 31), "20241231");
    assert_eq!(date_tag(987, 6, 5), "09870605");
    assert_eq!(date_tag(12345, 10, 10), "123451010");
    assert_eq!(date_tag(-44, 3, 15), "-0440315");
    assert_eq!(date_tag(0, 1, 1), "00000101");
}

#[test]
fn date_tag_agrees_with_the_formatter() {
    for (year, month, day) in [(1970, 1, 1), (2024, 2, 29), (9999, 12, 31), (5, 7, 9), (-1, 1, 1)]
    {
        assert_eq!(date_tag(year, month, day), format!("{:04}{:02}{:02}", year, month, day));
    }
}

#[test]
fn mosaic_file_name_holds_the_whole_timestamp() {
    assert_eq!(mosaic_file_name(&timestamp(2024, 1, 2, 3, 17)), "earth_20240102_0310.png");
    assert_eq!(mosaic_file_name(&timestamp(2024, 12, 31, 23, 59)), "earth_20241231_2350.png");
    assert_eq!(mosaic_file_name(&timestamp(2025, 6, 7, 0, 0)), "earth_20250607_0000.png");
}

#[test]
fn bordered_file_name_has_black_before_the_extension() {
    assert_eq!(
        bordered_file_name(&timestamp(2024, 1, 2, 3, 17)),
        "earth_20240102_0310_black.png"
    );
    let ts = timestamp(1999, 9, 9, 9, 9);
    assert_eq!(
        bordered_file_name(&ts),
        add_suffix_to_filename(&mosaic_file_name(&ts), BORDERED_SUFFIX)
    );
}

#[test]
fn names_of_one_slot_are_the_same() {
    let early = timestamp(2024, 1, 2, 3, 10);
    let late = timestamp(2024, 1, 2, 3, 19);
    assert_eq!(mosaic_file_name(&early), mosaic_file_name(&late));
    assert_eq!(bordered_file_name(&early), bordered_file_name(&late));
    assert_ne!(mosaic_file_name(&early), mosaic_file_name(&timestamp(2024, 1, 2, 3, 20)));
}

#[test]
fn tile_file_name_names_column_then_row() {
    assert_eq!(tile_file_name(0, 0), "tile_0_0.png");
    assert_eq!(tile_file_name(3, 1), "tile_3_1.png");
    assert_eq!(tile_file_name(12, 345), "tile_12_345.png");
}

#[test]
fn wallpaper_file_name_names_the_logical_size() {
    assert_eq!(wallpaper_file_name(1920, 1080), "wallpaper_1920x1080.png");
    assert_eq!(wallpaper_file_name(0, 0), "wallpaper_0x0.png");
    assert_eq!(wallpaper_file_name(u32::MAX, 1), "wallpaper_4294967295x1.png");
}

#[test]
fn display_directory_names_the_index() {
    assert_eq!(display_directory(0), "monitor_0");
    assert_eq!(display_directory(17), "monitor_17");
}
