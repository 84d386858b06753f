//! The geometry cropper: from the bordered mosaic to a wallpaper in the
//! aspect ratio of one display.
//!
//! The policy on the open points is explicit in [`CropPolicy`]: from which
//! hour the evening counts, whether upright displays get the stale edge
//! removed, and whether an upright display keeps the far edge before dawn.

use crate::displays::{select_display, DisplayGeometry};
use crate::raster::{Picture, Pixel, Raster};
use crate::text::{decimal, push_decimal};
use crate::rounding::{
    lemma_rounded_div_bounded,
    lemma_rounded_div_is_nearest,
    rounded_div,
    rounded_ratio,
};
use vstd::prelude::*;

verus! {

/// The stale edge is one part in this many of the picture's width, doubled.
pub const REMOVAL_DIVISOR: u32 = 12;

/// The part of the day at the reference clock.
#[derive(Clone, Copy, Debug, PartialEq, Eq, Structural)]
pub enum DayPhase {
    PreDawn,
    Daytime,
    Evening,
}

/// What the cropper does where the day phase matters.
#[derive(Clone, Copy, Debug, PartialEq, Eq, Structural)]
pub struct CropPolicy {
    /// The hours before this one are before dawn.
    pub dawn_hour: u32,
    /// The hours from this one on, if not before dawn, are evening.
    pub evening_hour: u32,
    /// Whether upright displays have the stale edge removed too.
    pub trim_upright: bool,
    /// Whether an upright display keeps the bottom or right edge before dawn.
    pub far_anchor_before_dawn: bool,
}

impl CropPolicy {
    /// Dawn at six, evening from fifteen o'clock, the stale edge removed for
    /// landscape displays only, upright displays anchored at the far edge
    /// before dawn.
    pub fn standard() -> (policy: CropPolicy)
        ensures
            policy == (CropPolicy {
                dawn_hour: 6,
                evening_hour: 15,
                trim_upright: false,
                far_anchor_before_dawn: true,
            }),
    {
        CropPolicy {
            dawn_hour: 6,
            evening_hour: 15,
            trim_upright: false,
            far_anchor_before_dawn: true,
        }
    }

    /// The phase of the day at the given hour of the reference clock.
    pub open spec fn phase_of(self, reference_hour: u32) -> DayPhase {
        if reference_hour < self.dawn_hour {
            DayPhase::PreDawn
        } else if reference_hour >= self.evening_hour {
            DayPhase::Evening
        } else {
            DayPhase::Daytime
        }
    }

    /// The phase of the day at the given hour of the reference clock.
    pub fn phase_at(&self, reference_hour: u32) -> (phase: DayPhase)
        ensures
            phase == self.phase_of(reference_hour),
    {
        if reference_hour < self.dawn_hour {
            DayPhase::PreDawn
        } else if reference_hour >= self.evening_hour {
            DayPhase::Evening
        } else {
            DayPhase::Daytime
        }
    }
}

/// Which edge of the picture is stale and comes off, and how wide it is.
#[derive(Clone, Copy, Debug, PartialEq, Eq, Structural)]
pub enum Trim {
    Keep,
    Left(u32),
    Right(u32),
}

/// A rectangle of a picture.
#[derive(Clone, Copy, Debug, PartialEq, Eq, Structural)]
pub struct CropRect {
    pub x: u32,
    pub y: u32,
    pub width: u32,
    pub height: u32,
}

/// What to do with the source picture for one display: first the trim, then
/// the cut.
#[derive(Clone, Copy, Debug, PartialEq, Eq, Structural)]
pub struct CropPlan {
    pub trim: Trim,
    pub rect: CropRect,
}

/// Why no wallpaper can be cut.
#[derive(Clone, Copy, Debug, PartialEq, Eq, Structural)]
pub enum CropError {
    /// There is no display with this index.
    InvalidDisplayIndex { index: usize },
    /// The display has no pixels in one direction.
    DegenerateTarget { width: u32, height: u32 },
    /// The cut would have no pixels in one direction.
    DegenerateCrop { width: u32, height: u32 },
}

impl CropError {
    /// What the user is told: the stage that failed, and the display or the size.
    pub open spec fn message_text(self) -> Seq<char> {
        match self {
            CropError::InvalidDisplayIndex { index } => "无效的显示器索引: "@ + decimal(index as nat),
            CropError::DegenerateTarget { width, height } => "Failed to crop: the display is "@
                + decimal(width as nat) + "x"@ + decimal(height as nat),
            CropError::DegenerateCrop { width, height } => "Failed to crop: the wallpaper would be "@
                + decimal(width as nat) + "x"@ + decimal(height as nat),
        }
    }

    /// What the user is told.
    pub fn message(&self) -> (message: String)
        ensures
            message@ == self.message_text(),
    {
        match self {
            CropError::InvalidDisplayIndex { index } => {
                let mut message = String::from_str("无效的显示器索引: ");
                push_decimal(&mut message, *index as u64);
                message
            },
            CropError::DegenerateTarget { width, height } => {
                let mut message = String::from_str("Failed to crop: the display is ");
                push_decimal(&mut message, *width as u64);
                message.append("x");
                push_decimal(&mut message, *height as u64);
                message
            },
            CropError::DegenerateCrop { width, height } => {
                let mut message = String::from_str("Failed to crop: the wallpaper would be ");
                push_decimal(&mut message, *width as u64);
                message.append("x");
                push_decimal(&mut message, *height as u64);
                message
            },
        }
    }
}

/// How wide the stale edge of a picture `width` pixels wide is: a twelfth of
/// the width, rounded to the nearest pixel, then doubled.
pub open spec fn removal_of(width: nat) -> nat {
    (rounded_div(width as int, REMOVAL_DIVISOR as int) * 2) as nat
}

/// The trim of a picture `width` pixels wide for a display: before dawn the
/// left edge is stale, in the evening the right one. Nothing comes off by day,
/// nor for an upright display unless the policy says so, nor where the stale
/// edge would be the whole picture.
pub open spec fn trim_for(
    width: nat,
    display: DisplayGeometry,
    phase: DayPhase,
    policy: CropPolicy,
) -> Trim {
    if !(display.is_landscape() || policy.trim_upright) || width <= removal_of(width) {
        Trim::Keep
    } else {
        match phase {
            DayPhase::PreDawn => Trim::Left(removal_of(width) as u32),
            DayPhase::Evening => Trim::Right(removal_of(width) as u32),
            DayPhase::Daytime => Trim::Keep,
        }
    }
}

/// What is left of `width` when `cut` comes off.
pub open spec fn remainder(width: nat, cut: nat) -> nat {
    if cut <= width {
        (width - cut) as nat
    } else {
        0
    }
}

/// The picture after the trim: of the same size, the stale edge cut off and
/// what remains put back where it was, so that the width of the edge is
/// opaque black. With the left edge off, what remains sits in the right of
/// the picture; with the right edge off, in the left.
pub open spec fn trimmed(picture: Picture, trim: Trim) -> Picture {
    match trim {
        Trim::Keep => picture,
        Trim::Left(cut) => Picture::filled(
            picture.width,
            picture.height,
            Pixel::spec_opaque_black(),
        ).pasted(
            picture.cropped(
                cut as nat,
                0,
                remainder(picture.width, cut as nat),
                picture.height,
            ),
            cut as int,
            0,
        ),
        Trim::Right(cut) => Picture::filled(
            picture.width,
            picture.height,
            Pixel::spec_opaque_black(),
        ).pasted(
            picture.cropped(0, 0, remainder(picture.width, cut as nat), picture.height),
            0,
            0,
        ),
    }
}

/// The display is wider, for its height, than a picture of the given size.
pub open spec fn screen_is_wider(width: nat, height: nat, display: DisplayGeometry) -> bool {
    display.effective_width * height > width * display.effective_height
}

/// The smaller of two numbers.
pub open spec fn at_most(value: int, limit: int) -> int {
    if value <= limit {
        value
    } else {
        limit
    }
}

/// The cut keeps the bottom or the right edge, not the top or the left one.
pub open spec fn anchors_far(
    display: DisplayGeometry,
    phase: DayPhase,
    policy: CropPolicy,
) -> bool {
    policy.far_anchor_before_dawn && !display.is_landscape() && phase == DayPhase::PreDawn
}

/// The largest rectangle of a `width` by `height` picture in the aspect
/// ratio of the display: the full width and a rounded height where the
/// display is the wider, else the full height and a rounded width.
pub open spec fn fit_rect(
    width: u32,
    height: u32,
    display: DisplayGeometry,
    phase: DayPhase,
    policy: CropPolicy,
) -> CropRect {
    let far = anchors_far(display, phase, policy);
    if screen_is_wider(width as nat, height as nat, display) {
        let fitted = at_most(
            rounded_div(width * display.effective_height, display.effective_width as int),
            height as int,
        );
        CropRect {
            x: 0,
            y: if far {
                (height - fitted) as u32
            } else {
                0
            },
            width,
            height: fitted as u32,
        }
    } else {
        let fitted = at_most(
            rounded_div(height * display.effective_width, display.effective_height as int),
            width as int,
        );
        CropRect {
            x: if far {
                (width - fitted) as u32
            } else {
                0
            },
            y: 0,
            width: fitted as u32,
            height,
        }
    }
}

/// The plan for a `width` by `height` picture and a display, or why there is none.
pub open spec fn plan_for(
    width: u32,
    height: u32,
    display: DisplayGeometry,
    phase: DayPhase,
    policy: CropPolicy,
) -> Result<CropPlan, CropError> {
    if display.effective_width == 0 || display.effective_height == 0 {
        Err(
            CropError::DegenerateTarget {
                width: display.effective_width,
                height: display.effective_height,
            },
        )
    } else {
        let rect = fit_rect(width, height, display, phase, policy);
        if rect.width == 0 || rect.height == 0 {
            Err(CropError::DegenerateCrop { width: rect.width, height: rect.height })
        } else {
            Ok(CropPlan { trim: trim_for(width as nat, display, phase, policy), rect })
        }
    }
}

/// The wallpaper of a display cut from `source`, or why there is none.
pub open spec fn wallpaper_for(
    source: Picture,
    display: DisplayGeometry,
    phase: DayPhase,
    policy: CropPolicy,
) -> Result<Picture, CropError> {
    match plan_for(source.width as u32, source.height as u32, display, phase, policy) {
        Ok(plan) => Ok(
            trimmed(source, plan.trim).cropped(
                plan.rect.x as nat,
                plan.rect.y as nat,
                plan.rect.width as nat,
                plan.rect.height as nat,
            ),
        ),
        Err(error) => Err(error),
    }
}

/// A cut of `cut_width` by `cut_height` pixels from a picture has the aspect
/// ratio of the display as nearly as whole pixels allow: it has the full
/// width of the picture and a height within half a pixel of the exact one
/// where the display is the wider, else the full height and a width within
/// half a pixel of the exact one.
pub open spec fn fits_display(
    cut_width: nat,
    cut_height: nat,
    width: nat,
    height: nat,
    display: DisplayGeometry,
) -> bool {
    let tw = display.effective_width as int;
    let th = display.effective_height as int;
    if screen_is_wider(width, height, display) {
        &&& cut_width == width
        &&& (2 * cut_height - 1) * tw <= 2 * (width * th)
        &&& 2 * (width * th) < (2 * cut_height + 1) * tw
    } else {
        &&& cut_height == height
        &&& (2 * cut_width - 1) * th <= 2 * (height * tw)
        &&& 2 * (height * tw) < (2 * cut_width + 1) * th
    }
}

/// The cut lies inside the picture, and its sides are in the ratio of the
/// display's, the rounded side within half a pixel of the exact one.
pub proof fn lemma_fit_matches_target(
    width: u32,
    height: u32,
    display: DisplayGeometry,
    phase: DayPhase,
    policy: CropPolicy,
)
    requires
        display.effective_width > 0,
        display.effective_height > 0,
    ensures
        ({
            let rect = fit_rect(width, height, display, phase, policy);
            let tw = display.effective_width as int;
            let th = display.effective_height as int;
            &&& rect.x + rect.width <= width
            &&& rect.y + rect.height <= height
            &&& fits_display(
                rect.width as nat,
                rect.height as nat,
                width as nat,
                height as nat,
                display,
            )
            &&& screen_is_wider(width as nat, height as nat, display) ==> {
                &&& rect.width == width
                &&& (2 * rect.height - 1) * tw <= 2 * (width * th)
                &&& 2 * (width * th) < (2 * rect.height + 1) * tw
            }
            &&& !screen_is_wider(width as nat, height as nat, display) ==> {
                &&& rect.height == height
                &&& (2 * rect.width - 1) * th <= 2 * (height * tw)
                &&& 2 * (height * tw) < (2 * rect.width + 1) * th
            }
        }),
{
    let tw = display.effective_width as int;
    let th = display.effective_height as int;
    assert(width * th >= 0 && height * tw >= 0) by (nonlinear_arith)
        requires
            width >= 0,
            height >= 0,
            tw > 0,
            th > 0,
    ;
    if screen_is_wider(width as nat, height as nat, display) {
        assert(width * th <= height * tw) by (nonlinear_arith)
            requires
                tw * height > width * th,
        ;
        lemma_rounded_div_is_nearest(width * th, tw);
        lemma_rounded_div_bounded(width * th, tw, height as int);
    } else {
        assert(height * tw <= width * th) by (nonlinear_arith)
            requires
                tw * height <= width * th,
        ;
        lemma_rounded_div_is_nearest(height * tw, th);
        lemma_rounded_div_bounded(height * tw, th, width as int);
    }
}

/// What the trim leaves: the picture as it was, but for the stale edge,
/// which is opaque black: the first `cut` columns with the left edge off,
/// the last `cut` columns with the right edge off.
pub proof fn lemma_trimmed(picture: Picture, cut: u32)
    requires
        picture.wf(),
    ensures
        trimmed(picture, Trim::Keep) == picture,
        trimmed(picture, Trim::Left(cut)).wf(),
        trimmed(picture, Trim::Right(cut)).wf(),
        trimmed(picture, Trim::Left(cut)).width == picture.width,
        trimmed(picture, Trim::Left(cut)).height == picture.height,
        trimmed(picture, Trim::Right(cut)).width == picture.width,
        trimmed(picture, Trim::Right(cut)).height == picture.height,
        forall|x: int, y: int| #[trigger]
            picture.contains(x, y) ==> trimmed(picture, Trim::Left(cut)).at(x, y) == if x < cut {
                Pixel::spec_opaque_black()
            } else {
                picture.at(x, y)
            },
        forall|x: int, y: int| #[trigger]
            picture.contains(x, y) ==> trimmed(picture, Trim::Right(cut)).at(x, y) == if x + cut
                < picture.width {
                picture.at(x, y)
            } else {
                Pixel::spec_opaque_black()
            },
{
}

/// The wallpaper has the size of the planned cut, which is never larger
/// than the source, and holds the pixels of the trimmed source from the
/// corner of the cut on.
pub proof fn lemma_wallpaper(
    source: Picture,
    display: DisplayGeometry,
    phase: DayPhase,
    policy: CropPolicy,
)
    requires
        source.wf(),
        source.width <= u32::MAX,
        source.height <= u32::MAX,
    ensures
        wallpaper_for(source, display, phase, policy) matches Ok(out) ==> {
            let plan = plan_for(
                source.width as u32,
                source.height as u32,
                display,
                phase,
                policy,
            ).unwrap();
            &&& out.wf()
            &&& out.width == plan.rect.width
            &&& out.height == plan.rect.height
            &&& 0 < out.width <= source.width
            &&& 0 < out.height <= source.height
            &&& fits_display(out.width, out.height, source.width, source.height, display)
            &&& forall|x: int, y: int| #[trigger]
                out.contains(x, y) ==> out.at(x, y) == trimmed(source, plan.trim).at(
                    plan.rect.x + x,
                    plan.rect.y + y,
                )
        },
{
    if display.effective_width > 0 && display.effective_height > 0 {
        lemma_fit_matches_target(
            source.width as u32,
            source.height as u32,
            display,
            phase,
            policy,
        );
        lemma_trimmed(source, removal_of(source.width) as u32);
    }
}

/// How wide the stale edge of a raster `width` pixels wide is.
pub fn removal_width(width: u32) -> (cut: u32)
    ensures
        cut == removal_of(width as nat),
{
    proof {
        lemma_rounded_div_is_nearest(width as int, REMOVAL_DIVISOR as int);
        lemma_rounded_div_bounded(width as int, REMOVAL_DIVISOR as int, width as int);
    }
    let doubled: u64 = 2 * (width as u64) + (REMOVAL_DIVISOR as u64);
    let twelfth: u64 = doubled / (2 * (REMOVAL_DIVISOR as u64));
    (twelfth * 2) as u32
}

/// The plan for a `width` by `height` picture and a display, or why there is none.
pub fn plan_crop(
    width: u32,
    height: u32,
    display: &DisplayGeometry,
    phase: DayPhase,
    policy: &CropPolicy,
) -> (res: Result<CropPlan, CropError>)
    ensures
        res == plan_for(width, height, *display, phase, *policy),
        res matches Ok(plan) ==> {
            &&& plan.rect.x + plan.rect.width <= width
            &&& plan.rect.y + plan.rect.height <= height
            &&& fits_display(
                plan.rect.width as nat,
                plan.rect.height as nat,
                width as nat,
                height as nat,
                *display,
            )
        },
{
    let tw = display.effective_width;
    let th = display.effective_height;
    if tw == 0 || th == 0 {
        return Err(CropError::DegenerateTarget { width: tw, height: th });
    }
    proof {
        lemma_fit_matches_target(width, height, *display, phase, *policy);
        assert(tw * height <= 0xffff_ffff * 0xffff_ffff && width * th <= 0xffff_ffff * 0xffff_ffff)
            by (nonlinear_arith)
            requires
                0 <= tw <= 0xffff_ffff,
                0 <= th <= 0xffff_ffff,
                0 <= width <= 0xffff_ffff,
                0 <= height <= 0xffff_ffff,
        ;
    }
    let landscape = tw >= th;
    let far = policy.far_anchor_before_dawn && !landscape && phase == DayPhase::PreDawn;
    let wider = (tw as u64) * (height as u64) > (width as u64) * (th as u64);
    let rect = if wider {
        let exact = rounded_ratio(width, th, tw);
        let fitted: u32 = if exact <= height as u64 {
            exact as u32
        } else {
            height
        };
        CropRect {
            x: 0,
            y: if far {
                height - fitted
            } else {
                0
            },
            width,
            height: fitted,
        }
    } else {
        let exact = rounded_ratio(height, tw, th);
        let fitted: u32 = if exact <= width as u64 {
            exact as u32
        } else {
            width
        };
        CropRect {
            x: if far {
                width - fitted
            } else {
                0
            },
            y: 0,
            width: fitted,
            height,
        }
    };
    if rect.width == 0 || rect.height == 0 {
        return Err(CropError::DegenerateCrop { width: rect.width, height: rect.height });
    }
    let cut = removal_width(width);
    let trim = if !(landscape || policy.trim_upright) || width <= cut {
        Trim::Keep
    } else {
        match phase {
            DayPhase::PreDawn => Trim::Left(cut),
            DayPhase::Evening => Trim::Right(cut),
            DayPhase::Daytime => Trim::Keep,
        }
    };
    Ok(CropPlan { trim, rect })
}

/// The raster after the trim, or `None` where nothing is to be trimmed.
pub fn apply_trim(source: &Raster, trim: Trim) -> (res: Option<Raster>)
    ensures
        res is None <==> trim == Trim::Keep,
        res matches Some(out) ==> out@ == trimmed(source@, trim),
{
    let (width, height) = source.size();
    match trim {
        Trim::Keep => None,
        Trim::Left(cut) => {
            let rest: u32 = if cut <= width {
                width - cut
            } else {
                0
            };
            let kept = source.crop(cut, 0, rest, height);
            match Raster::filled(width, height, Pixel::opaque_black()) {
                Some(canvas) => {
                    let mut canvas = canvas;
                    canvas.paste(&kept, cut, 0);
                    Some(canvas)
                },
                None => {
                    assert(false);
                    None
                },
            }
        },
        Trim::Right(cut) => {
            let rest: u32 = if cut <= width {
                width - cut
            } else {
                0
            };
            let kept = source.crop(0, 0, rest, height);
            match Raster::filled(width, height, Pixel::opaque_black()) {
                Some(canvas) => {
                    let mut canvas = canvas;
                    canvas.paste(&kept, 0, 0);
                    Some(canvas)
                },
                None => {
                    assert(false);
                    None
                },
            }
        },
    }
}

/// The wallpaper of a display cut from `source`: the stale edge removed as
/// the day phase asks, then the largest rectangle in the display's aspect
/// ratio cut out.
pub fn crop_for_display(
    source: &Raster,
    display: &DisplayGeometry,
    phase: DayPhase,
    policy: &CropPolicy,
) -> (res: Result<Raster, CropError>)
    ensures
        match res {
            Ok(out) => {
                &&& wallpaper_for(source@, *display, phase, *policy) == Ok::<Picture, CropError>(
                    out@,
                )
                &&& out@.width <= source@.width
                &&& out@.height <= source@.height
                &&& fits_display(
                    out@.width,
                    out@.height,
                    source@.width,
                    source@.height,
                    *display,
                )
            },
            Err(error) => wallpaper_for(source@, *display, phase, *policy) == Err::<
                Picture,
                CropError,
            >(error),
        },
{
    let (width, height) = source.size();
    proof {
        source.lemma_view_wf();
        lemma_wallpaper(source@, *display, phase, *policy);
    }
    match plan_crop(width, height, display, phase, policy) {
        Err(error) => Err(error),
        Ok(plan) => {
            let rect = plan.rect;
            match apply_trim(source, plan.trim) {
                Some(cleaned) => Ok(cleaned.crop(rect.x, rect.y, rect.width, rect.height)),
                None => Ok(source.crop(rect.x, rect.y, rect.width, rect.height)),
            }
        },
    }
}

/// The wallpaper of the display with the given index, cut from `source` at
/// the given hour of the reference clock.
///
/// Refused where there is no such display, and where no wallpaper can be cut
/// for it.
pub fn crop_image_for_monitor(
    source: &Raster,
    displays: &Vec<DisplayGeometry>,
    monitor_index: usize,
    reference_hour: u32,
    policy: &CropPolicy,
) -> (res: Result<Raster, CropError>)
    ensures
        monitor_index >= displays@.len() ==> res == Err::<Raster, CropError>(
            CropError::InvalidDisplayIndex { index: monitor_index },
        ),
        monitor_index < displays@.len() ==> match res {
            Ok(out) => {
                &&& wallpaper_for(
                    source@,
                    displays@[monitor_index as int],
                    policy.phase_of(reference_hour),
                    *policy,
                ) == Ok::<Picture, CropError>(out@)
                &&& out@.width <= source@.width
                &&& out@.height <= source@.height
                &&& fits_display(
                    out@.width,
                    out@.height,
                    source@.width,
                    source@.height,
                    displays@[monitor_index as int],
                )
            },
            Err(error) => wallpaper_for(
                source@,
                displays@[monitor_index as int],
                policy.phase_of(reference_hour),
                *policy,
            ) == Err::<Picture, CropError>(error),
        },
{
    match select_display(displays, monitor_index) {
        Ok(display) => crop_for_display(source, &display, policy.phase_at(reference_hour), policy),
        Err(error) => Err(error),
    }
}

} // verus!
