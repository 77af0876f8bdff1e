//! Terminal areas, render-texture dimensions, and the autoresize decision
//! taken when a camera widget is replaced.
use vstd::prelude::*;

verus! {

/// A rectangle of terminal cells: the area a camera widget was drawn into.
#[derive(Clone, Copy, Debug, PartialEq, Eq, Structural)]
pub struct CellArea {
    pub x: u16,
    pub y: u16,
    pub width: u16,
    pub height: u16,
}

/// Pixel dimensions of a camera's render texture.
#[derive(Clone, Copy, Debug, PartialEq, Eq, Structural)]
pub struct Dimensions {
    pub width: u32,
    pub height: u32,
}

/// Horizontal pixels that one terminal cell stands for.
pub const PIXELS_PER_CELL_X: u32 = 2;

/// Vertical pixels that one terminal cell stands for.
pub const PIXELS_PER_CELL_Y: u32 = 4;

/// `value`, raised to one when it is zero.
pub open spec fn at_least_one(value: int) -> int {
    if value >= 1 { value } else { 1 }
}

/// The render-texture dimensions that cover `area`: two pixels per cell
/// horizontally, four vertically, and never zero along either axis.
pub open spec fn spec_render_dimensions(area: CellArea) -> Dimensions {
    Dimensions {
        width: at_least_one(area.width * PIXELS_PER_CELL_X) as u32,
        height: at_least_one(area.height * PIXELS_PER_CELL_Y) as u32,
    }
}

/// Two areas have the same size when their widths and their heights agree;
/// their positions do not matter.
pub open spec fn spec_same_size(a: CellArea, b: CellArea) -> bool {
    a.width == b.width && a.height == b.height
}

/// Why a resize could not be decided.
#[derive(Clone, Copy, Debug, PartialEq, Eq, Structural)]
pub enum ResizeError {
    /// The widget's size changed but its entity holds no camera.
    MissingCamera,
}

/// What replacing a widget does to its camera: `last_area` is the area the
/// widget was last known to cover, `next_area` the area it was just drawn
/// into, and `camera_autoresize` the camera's autoresize flag (`None` when the
/// entity has no camera). The widget's last area always becomes `next_area`.
pub open spec fn spec_resize_outcome(
    last_area: CellArea,
    next_area: CellArea,
    camera_autoresize: Option<bool>,
) -> Result<Option<Dimensions>, ResizeError> {
    if spec_same_size(last_area, next_area) {
        Ok(None)
    } else {
        match camera_autoresize {
            None => Err(ResizeError::MissingCamera),
            Some(false) => Ok(None),
            Some(true) => Ok(Some(spec_render_dimensions(next_area))),
        }
    }
}

/// The render-texture dimensions for a widget drawn into `area`.
pub fn render_dimensions(area: CellArea) -> (d: Dimensions)
    ensures
        d == spec_render_dimensions(area),
        d.width >= 1,
        d.height >= 1,
        d.width == (if area.width == 0 { 1 } else { 2 * area.width }),
        d.height == (if area.height == 0 { 1 } else { 4 * area.height }),
{
    let w: u32 = (area.width as u32) * PIXELS_PER_CELL_X;
    let h: u32 = (area.height as u32) * PIXELS_PER_CELL_Y;
    Dimensions { width: if w >= 1 { w } else { 1 }, height: if h >= 1 { h } else { 1 } }
}

/// Whether two areas have the same width and height.
pub fn same_size(a: CellArea, b: CellArea) -> (r: bool)
    ensures
        r == spec_same_size(a, b),
{
    a.width == b.width && a.height == b.height
}

/// Decides the resize that replacing a widget triggers: nothing when the
/// drawn area kept its size or the camera does not autoresize, new
/// dimensions for the drawn area when it does, and an error when the size
/// changed and there is no camera to resize.
pub fn resize_outcome(
    last_area: CellArea,
    next_area: CellArea,
    camera_autoresize: Option<bool>,
) -> (r: Result<Option<Dimensions>, ResizeError>)
    ensures
        r == spec_resize_outcome(last_area, next_area, camera_autoresize),
        last_area.width == next_area.width && last_area.height == next_area.height ==> r == Ok::<
            Option<Dimensions>,
            ResizeError,
        >(None),
        camera_autoresize == Some(false) ==> r == Ok::<Option<Dimensions>, ResizeError>(None),
        (last_area.width != next_area.width || last_area.height != next_area.height)
            && camera_autoresize is None ==> r == Err::<Option<Dimensions>, ResizeError>(
            ResizeError::MissingCamera,
        ),
        (last_area.width != next_area.width || last_area.height != next_area.height)
            && camera_autoresize == Some(true) ==> (r matches Ok(Some(d)) && d.width == (if next_area.width
            == 0 { 1 } else { 2 * next_area.width }) && d.height == (if next_area.height == 0 {
            1
        } else {
            4 * next_area.height
        })),
{
    if same_size(last_area, next_area) {
        return Ok(None);
    }
    match camera_autoresize {
        None => Err(ResizeError::MissingCamera),
        Some(autoresize) => {
            if !autoresize {
                Ok(None)
            } else {
                Ok(Some(render_dimensions(next_area)))
            }
        },
    }
}

/// One replacement of a widget: the area it records as its last area, and
/// what happens to its camera.
#[derive(Clone, Copy, Debug, PartialEq, Eq)]
pub struct ResizeStep {
    pub recorded_area: CellArea,
    pub outcome: Result<Option<Dimensions>, ResizeError>,
}

/// Replacing a widget records the area it was just drawn into as its last
/// area, whatever happens to the camera, and decides the resize as
/// `spec_resize_outcome` says.
pub open spec fn spec_resize_step(
    last_area: CellArea,
    next_area: CellArea,
    camera_autoresize: Option<bool>,
) -> ResizeStep {
    ResizeStep {
        recorded_area: next_area,
        outcome: spec_resize_outcome(last_area, next_area, camera_autoresize),
    }
}

/// The whole step taken when a widget is replaced: the last area to record
/// and the resize to carry out.
pub fn resize_step(
    last_area: CellArea,
    next_area: CellArea,
    camera_autoresize: Option<bool>,
) -> (s: ResizeStep)
    ensures
        s == spec_resize_step(last_area, next_area, camera_autoresize),
        s.recorded_area == next_area,
{
    ResizeStep {
        recorded_area: next_area,
        outcome: resize_outcome(last_area, next_area, camera_autoresize),
    }
}

/// After one replacement, replacing the widget again without drawing it
/// elsewhere resizes nothing: the recorded area already matches.
pub proof fn lemma_second_step_resizes_nothing(
    last_area: CellArea,
    next_area: CellArea,
    first_autoresize: Option<bool>,
    second_autoresize: Option<bool>,
)
    ensures
        spec_resize_step(
            spec_resize_step(last_area, next_area, first_autoresize).recorded_area,
            next_area,
            second_autoresize,
        ).outcome == Ok::<Option<Dimensions>, ResizeError>(None),
{
}

/// Once a widget's last area has been brought up to the area it was drawn
/// into, replacing it again without drawing elsewhere resizes nothing.
pub proof fn lemma_resize_settles(area: CellArea, camera_autoresize: Option<bool>)
    ensures
        spec_resize_outcome(area, area, camera_autoresize) == Ok::<Option<Dimensions>, ResizeError>(None),
{
}

/// Moving a widget without changing its size never resizes its camera,
/// whether or not the camera exists or autoresizes.
pub proof fn lemma_moving_does_not_resize(
    last_area: CellArea,
    next_area: CellArea,
    camera_autoresize: Option<bool>,
)
    requires
        spec_same_size(last_area, next_area),
    ensures
        spec_resize_outcome(last_area, next_area, camera_autoresize) == Ok::<Option<Dimensions>, ResizeError>(None),
{
}

/// Every resize produces a non-empty texture that depends only on the size
/// of the area drawn into, never on its position.
pub proof fn lemma_resize_nonempty_and_positionless(
    last_area: CellArea,
    next_area: CellArea,
    moved_area: CellArea,
)
    requires
        spec_same_size(next_area, moved_area),
    ensures
        spec_resize_outcome(last_area, next_area, Some(true)) matches Ok(Some(d)) ==> d.width >= 1
            && d.height >= 1 && d == spec_render_dimensions(moved_area),
{
}


/// A render texture is two pixels wide and four pixels tall per cell of the
/// area it covers, and one pixel along an axis where the area is empty.
pub proof fn lemma_render_dimensions_per_cell(area: CellArea)
    ensures
        spec_render_dimensions(area).width == (if area.width == 0 { 1 } else { 2 * area.width }),
        spec_render_dimensions(area).height == (if area.height == 0 { 1 } else { 4 * area.height }),
{
}

/// The resize decision in full: no resize when neither the width nor the
/// height of the drawn area changed, or when the camera does not autoresize;
/// an error when either changed and there is no camera; otherwise a texture
/// two pixels per cell wide and four per cell tall, at least one pixel each.
pub proof fn lemma_resize_decision(
    last_area: CellArea,
    next_area: CellArea,
    camera_autoresize: Option<bool>,
)
    ensures
        ({
            let r = spec_resize_outcome(last_area, next_area, camera_autoresize);
            let changed = last_area.width != next_area.width || last_area.height != next_area.height;
            &&& !changed ==> r == Ok::<Option<Dimensions>, ResizeError>(None)
            &&& camera_autoresize == Some(false) ==> r == Ok::<Option<Dimensions>, ResizeError>(None)
            &&& changed && camera_autoresize is None ==> r == Err::<Option<Dimensions>, ResizeError>(
                ResizeError::MissingCamera,
            )
            &&& changed && camera_autoresize == Some(true) ==> (r matches Ok(Some(d)) && d.width == (
            if next_area.width == 0 { 1 } else { 2 * next_area.width }) && d.height == (
            if next_area.height == 0 { 1 } else { 4 * next_area.height }))
        }),
{
}

} // verus!
