use immediate_earth::cropper::CropError;
use immediate_earth::displays::{select_display, target_displays, DisplayGeometry};

fn display(width: u32, height: u32, is_primary: bool) -> DisplayGeometry {
    DisplayGeometry {
        width,
        height,
        effective_width: width * 2,
        effective_height: height * 2,
        is_primary,
    }
}

#[test]
fn display_is_selected_by_its_index() {
    let displays = vec![display(1920, 1080, true), display(1080, 1920, false)];
    assert_eq!(select_display(&displays, 0), Ok(display(1920, 1080, true)));
    assert_eq!(select_display(&displays, 1), Ok(display(1080, 1920, false)));
}

#[test]
fn index_without_a_display_is_refused_by_name() {
    let displays = vec![display(1920, 1080, true)];
    assert_eq!(select_display(&displays, 1), Err(CropError::InvalidDisplayIndex { index: 1 }));
    assert_eq!(
        select_display(&displays, usize::MAX),
        Err(CropError::InvalidDisplayIndex { index: usize::MAX })
    );
    assert_eq!(select_display(&Vec::new(), 0), Err(CropError::InvalidDisplayIndex { index: 0 }));
}

#[test]
fn all_displays_are_targets_where_none_is_asked_for() {
    assert_eq!(target_displays(None, 3), vec![0, 1, 2]);
    assert_eq!(target_displays(Some(&Vec::new()), 3), vec![0, 1, 2]);
    assert_eq!(target_displays(None, 0), Vec::<usize>::new());
}

#[test]
fn requested_displays_are_targets_in_the_order_asked_for() {
    assert_eq!(target_displays(Some(&vec![2, 0]), 3), vec![2, 0]);
    assert_eq!(target_displays(Some(&vec![1, 1]), 3), vec![1, 1]);
}

#[test]
fn requested_displays_that_do_not_exist_are_left_out() {
    assert_eq!(target_displays(Some(&vec![0, 5, 1, 3]), 3), vec![0, 1]);
    assert_eq!(target_displays(Some(&vec![7]), 3), Vec::<usize>::new());
    assert_eq!(target_displays(Some(&vec![0]), 0), Vec::<usize>::new());
}
