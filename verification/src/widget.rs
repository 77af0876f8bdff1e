//! The widget built each frame from what a camera's pipes read back.
use vstd::prelude::*;
use crate::area::{CellArea, Dimensions, ResizeError, spec_resize_outcome};

verus! {

/// What a camera widget is built from: the entity it shows, which read-back
/// images it carries besides the colour image, whether it draws edges, and
/// the area it was last drawn into together with the area it will record
/// when it is drawn next.
#[derive(Clone, Copy, Debug, PartialEq, Eq, Structural)]
pub struct WidgetPlan {
    pub entity: u64,
    pub depth_image: bool,
    pub sobel_image: bool,
    pub edge_detection: bool,
    pub last_area: CellArea,
    pub next_last_area: CellArea,
}

/// The widget for the camera on `entity`, whose last drawn area is
/// `last_area`: it carries a depth image exactly when the entity has a depth
/// receiver, a Sobel image exactly when it has a Sobel receiver, edge
/// detection exactly when the entity has it, and starts with both of its
/// areas equal to `last_area`.
pub open spec fn spec_plan_widget(
    entity: u64,
    last_area: CellArea,
    depth_receiver: bool,
    sobel_receiver: bool,
    edge_detection: bool,
) -> WidgetPlan {
    WidgetPlan {
        entity,
        depth_image: depth_receiver,
        sobel_image: sobel_receiver,
        edge_detection,
        last_area,
        next_last_area: last_area,
    }
}

/// Plans the widget for the camera on `entity`.
pub fn plan_widget(
    entity: u64,
    last_area: CellArea,
    depth_receiver: bool,
    sobel_receiver: bool,
    edge_detection: bool,
) -> (w: WidgetPlan)
    ensures
        w == spec_plan_widget(entity, last_area, depth_receiver, sobel_receiver, edge_detection),
        w.entity == entity,
        w.depth_image == depth_receiver,
        w.sobel_image == sobel_receiver,
        w.edge_detection == edge_detection,
        w.last_area == last_area,
        w.next_last_area == last_area,
{
    WidgetPlan {
        entity,
        depth_image: depth_receiver,
        sobel_image: sobel_receiver,
        edge_detection,
        last_area,
        next_last_area: last_area,
    }
}

/// A widget that is replaced before it was drawn into a differently sized
/// area never resizes its camera: the next last area it records is the last
/// area it was built from.
pub proof fn lemma_undrawn_widget_never_resizes(
    entity: u64,
    last_area: CellArea,
    depth_receiver: bool,
    sobel_receiver: bool,
    edge_detection: bool,
    camera_autoresize: Option<bool>,
)
    ensures
        ({
            let w = spec_plan_widget(entity, last_area, depth_receiver, sobel_receiver, edge_detection);
            spec_resize_outcome(last_area, w.next_last_area, camera_autoresize) == Ok::<
                Option<Dimensions>,
                ResizeError,
            >(None)
        }),
{
}


/// A widget carries a depth image exactly when its camera has a depth
/// receiver, a Sobel image exactly when it has a Sobel receiver, and edge
/// detection exactly when the camera has it; it shows its own entity and
/// starts with both areas equal to the camera's last area.
pub proof fn lemma_widget_carries_what_was_read_back(
    entity: u64,
    last_area: CellArea,
    depth_receiver: bool,
    sobel_receiver: bool,
    edge_detection: bool,
)
    ensures
        ({
            let w = spec_plan_widget(entity, last_area, depth_receiver, sobel_receiver, edge_detection);
            &&& w.entity == entity
            &&& w.depth_image == depth_receiver
            &&& w.sobel_image == sobel_receiver
            &&& w.edge_detection == edge_detection
            &&& w.last_area == last_area
            &&& w.next_last_area == last_area
        }),
{
}

} // verus!
