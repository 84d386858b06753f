//! The displays that wallpapers are cut for.

use crate::cropper::CropError;
use vstd::prelude::*;

verus! {

/// A display as the window system describes it. The effective size is the
/// logical size times the scale factor, in whole pixels.
#[derive(Clone, Copy, Debug, PartialEq, Eq, Structural)]
pub struct DisplayGeometry {
    pub width: u32,
    pub height: u32,
    pub effective_width: u32,
    pub effective_height: u32,
    pub is_primary: bool,
}

impl DisplayGeometry {
    /// The display is at least as wide as it is high.
    pub open spec fn is_landscape(self) -> bool {
        self.effective_width >= self.effective_height
    }
}

/// The display with the given index, if there is one.
pub fn select_display(displays: &Vec<DisplayGeometry>, index: usize) -> (res: Result<
    DisplayGeometry,
    CropError,
>)
    ensures
        match res {
            Ok(display) => index < displays@.len() && display == displays@[index as int],
            Err(error) => index >= displays@.len() && error == (CropError::InvalidDisplayIndex {
                index,
            }),
        },
{
    if index < displays.len() {
        Ok(displays[index])
    } else {
        Err(CropError::InvalidDisplayIndex { index })
    }
}

/// All the indexes of `count` displays, in order.
pub open spec fn all_displays(count: nat) -> Seq<usize> {
    Seq::new(count, |i: int| i as usize)
}

/// The displays to set a wallpaper for: those asked for that exist, in the
/// order in which they were asked for; all of them where none was asked for.
pub open spec fn targets_of(requested: Option<Seq<usize>>, count: nat) -> Seq<usize> {
    match requested {
        Some(indexes) => if indexes.len() == 0 {
            all_displays(count)
        } else {
            indexes.filter(|index: usize| index < count)
        },
        None => all_displays(count),
    }
}

/// The indexes of the displays to set a wallpaper for, of `display_count`
/// displays, where `requested` were asked for.
pub fn target_displays(requested: Option<&Vec<usize>>, display_count: usize) -> (targets: Vec<
    usize,
>)
    ensures
        targets@ == targets_of(
            match requested {
                Some(indexes) => Some(indexes@),
                None => None,
            },
            display_count as nat,
        ),
{
    match requested {
        Some(indexes) if indexes.len() > 0 => {
            let ghost exists_here = |index: usize| index < display_count;
            let mut targets: Vec<usize> = Vec::new();
            let mut i: usize = 0;
            assert(indexes@.take(0).filter(exists_here) =~= Seq::<usize>::empty()) by {
                reveal(Seq::filter);
            }
            while i < indexes.len()
                invariant
                    i <= indexes@.len(),
                    exists_here == (|index: usize| index < display_count),
                    targets@ == indexes@.take(i as int).filter(exists_here),
                decreases indexes@.len() - i,
            {
                let index = indexes[i];
                proof {
                    assert(indexes@.take(i + 1) =~= indexes@.take(i as int).push(index));
                    indexes@.take(i as int).lemma_filter_push(index, exists_here);
                }
                if index < display_count {
                    targets.push(index);
                }
                i = i + 1;
            }
            assert(indexes@.take(i as int) =~= indexes@);
            targets
        },
        _ => {
            let mut targets: Vec<usize> = Vec::new();
            let mut i: usize = 0;
            while i < display_count
                invariant
                    i <= display_count,
                    targets@ == all_displays(i as nat),
                decreases display_count - i,
            {
                targets.push(i);
                i = i + 1;
                assert(targets@ =~= all_displays(i as nat));
            }
            targets
        },
    }
}

} // verus!
