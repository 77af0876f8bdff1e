use ratatui_camera_readback::area::{resize_outcome, CellArea};
use ratatui_camera_readback::widget::{plan_widget, WidgetPlan};

#[test]
fn widget_carries_what_was_read_back() {
    let last = CellArea { x: 1, y: 2, width: 30, height: 10 };
    assert_eq!(
        plan_widget(5, last, true, false, true),
        WidgetPlan {
            entity: 5,
            depth_image: true,
            sobel_image: false,
            edge_detection: true,
            last_area: last,
            next_last_area: last,
        }
    );
}

#[test]
fn undrawn_widget_never_resizes() {
    let last = CellArea { x: 0, y: 0, width: 30, height: 10 };
    let w = plan_widget(5, last, false, true, false);
    assert_eq!(resize_outcome(last, w.next_last_area, Some(true)), Ok(None));
}
