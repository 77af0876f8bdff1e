use ratatui_camera_readback::area::{
    render_dimensions, resize_outcome, resize_step, same_size, CellArea, Dimensions, ResizeError,
};

fn area(x: u16, y: u16, width: u16, height: u16) -> CellArea {
    CellArea { x, y, width, height }
}

#[test]
fn render_dimensions_scales_cells_to_pixels() {
    assert_eq!(render_dimensions(area(0, 0, 80, 24)), Dimensions { width: 160, height: 96 });
    assert_eq!(render_dimensions(area(3, 7, 1, 1)), Dimensions { width: 2, height: 4 });
}

#[test]
fn render_dimensions_never_zero() {
    assert_eq!(render_dimensions(area(0, 0, 0, 0)), Dimensions { width: 1, height: 1 });
    assert_eq!(render_dimensions(area(0, 0, 0, 5)), Dimensions { width: 1, height: 20 });
    assert_eq!(render_dimensions(area(0, 0, 5, 0)), Dimensions { width: 10, height: 1 });
}

#[test]
fn render_dimensions_largest_area() {
    assert_eq!(
        render_dimensions(area(0, 0, u16::MAX, u16::MAX)),
        Dimensions { width: 131070, height: 262140 }
    );
}

#[test]
fn same_size_ignores_position() {
    assert!(same_size(area(0, 0, 10, 5), area(4, 9, 10, 5)));
    assert!(!same_size(area(0, 0, 10, 5), area(0, 0, 11, 5)));
    assert!(!same_size(area(0, 0, 10, 5), area(0, 0, 10, 6)));
}

#[test]
fn resize_when_size_changes_and_autoresize() {
    assert_eq!(
        resize_outcome(area(0, 0, 10, 5), area(0, 0, 40, 12), Some(true)),
        Ok(Some(Dimensions { width: 80, height: 48 }))
    );
}

#[test]
fn no_resize_without_autoresize() {
    assert_eq!(resize_outcome(area(0, 0, 10, 5), area(0, 0, 40, 12), Some(false)), Ok(None));
}

#[test]
fn missing_camera_is_an_error_only_when_size_changes() {
    assert_eq!(
        resize_outcome(area(0, 0, 10, 5), area(0, 0, 40, 12), None),
        Err(ResizeError::MissingCamera)
    );
    assert_eq!(resize_outcome(area(0, 0, 10, 5), area(0, 0, 10, 5), None), Ok(None));
}

#[test]
fn resize_settles_after_last_area_is_updated() {
    let next = area(2, 3, 40, 12);
    assert!(resize_outcome(area(0, 0, 10, 5), next, Some(true)).unwrap().is_some());
    assert_eq!(resize_outcome(next, next, Some(true)), Ok(None));
}

#[test]
fn moving_without_resizing_keeps_dimensions() {
    assert_eq!(resize_outcome(area(0, 0, 10, 5), area(30, 2, 10, 5), Some(true)), Ok(None));
}

#[test]
fn resize_to_empty_area_keeps_one_pixel() {
    assert_eq!(
        resize_outcome(area(0, 0, 10, 5), area(0, 0, 0, 0), Some(true)),
        Ok(Some(Dimensions { width: 1, height: 1 }))
    );
}

#[test]
fn resize_step_records_drawn_area() {
    let last = area(0, 0, 10, 5);
    let next = area(4, 1, 40, 12);
    let step = resize_step(last, next, None);
    assert_eq!(step.recorded_area, next);
    assert_eq!(step.outcome, Err(ResizeError::MissingCamera));
    let step = resize_step(last, next, Some(true));
    assert_eq!(step.recorded_area, next);
    assert_eq!(step.outcome, Ok(Some(Dimensions { width: 80, height: 48 })));
    let again = resize_step(step.recorded_area, next, Some(true));
    assert_eq!(again.recorded_area, next);
    assert_eq!(again.outcome, Ok(None));
}
