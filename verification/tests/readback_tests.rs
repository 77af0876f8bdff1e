use ratatui_camera_readback::area::Dimensions;
use ratatui_camera_readback::readback::{
    components_for, kind_of, on_inserted, on_removed, plan_updates, ChangedCamera,
    ReadbackAction, ReadbackComponents, ReadbackKind, ReadbackTrigger,
};
use ratatui_camera_readback::targeting::CameraTargetingMessage;
use std::collections::BTreeMap;

const D: Dimensions = Dimensions { width: 256, height: 256 };

fn key(kind: ReadbackKind) -> u8 {
    match kind {
        ReadbackKind::Color => 0,
        ReadbackKind::Depth => 1,
        ReadbackKind::Sobel => 2,
    }
}

fn apply(pipes: &mut BTreeMap<(u64, u8), Dimensions>, actions: &[ReadbackAction]) {
    for action in actions {
        match *action {
            ReadbackAction::CreatePipe { entity, kind, dimensions } => {
                pipes.insert((entity, key(kind)), dimensions);
            }
            ReadbackAction::RemovePipe { entity, kind } => {
                pipes.remove(&(entity, key(kind)));
            }
            ReadbackAction::Target(_) => {}
        }
    }
}

#[test]
fn kinds_of_triggers() {
    assert_eq!(kind_of(ReadbackTrigger::Camera), ReadbackKind::Color);
    assert_eq!(kind_of(ReadbackTrigger::DepthDetection), ReadbackKind::Depth);
    assert_eq!(kind_of(ReadbackTrigger::EdgeDetection), ReadbackKind::Sobel);
}

#[test]
fn components_per_kind() {
    assert_eq!(
        components_for(ReadbackKind::Color),
        ReadbackComponents { kind: ReadbackKind::Color, depth_prepass: false, normal_prepass: false, msaa_off: false }
    );
    assert_eq!(
        components_for(ReadbackKind::Depth),
        ReadbackComponents { kind: ReadbackKind::Depth, depth_prepass: true, normal_prepass: false, msaa_off: true }
    );
    assert_eq!(
        components_for(ReadbackKind::Sobel),
        ReadbackComponents { kind: ReadbackKind::Sobel, depth_prepass: true, normal_prepass: true, msaa_off: true }
    );
}

#[test]
fn camera_insert_creates_pipe_and_targets_itself() {
    assert_eq!(
        on_inserted(4, ReadbackTrigger::Camera, Some(D)),
        vec![
            ReadbackAction::CreatePipe { entity: 4, kind: ReadbackKind::Color, dimensions: D },
            ReadbackAction::Target(CameraTargetingMessage { targeter_entity: 4, target_entity: 4 }),
        ]
    );
}

#[test]
fn detection_insert_creates_pipe_only() {
    assert_eq!(
        on_inserted(4, ReadbackTrigger::DepthDetection, Some(D)),
        vec![ReadbackAction::CreatePipe { entity: 4, kind: ReadbackKind::Depth, dimensions: D }]
    );
    assert_eq!(
        on_inserted(4, ReadbackTrigger::EdgeDetection, Some(D)),
        vec![ReadbackAction::CreatePipe { entity: 4, kind: ReadbackKind::Sobel, dimensions: D }]
    );
}

#[test]
fn detection_without_camera_does_nothing() {
    assert!(on_inserted(4, ReadbackTrigger::DepthDetection, None).is_empty());
    assert!(on_inserted(4, ReadbackTrigger::EdgeDetection, None).is_empty());
}

#[test]
fn removal_removes_pipe_of_trigger_kind() {
    assert_eq!(
        on_removed(4, ReadbackTrigger::EdgeDetection),
        vec![ReadbackAction::RemovePipe { entity: 4, kind: ReadbackKind::Sobel }]
    );
}

#[test]
fn remove_undoes_insert() {
    let mut pipes = BTreeMap::new();
    pipes.insert((1, 0), D);
    let before = pipes.clone();
    apply(&mut pipes, &on_inserted(2, ReadbackTrigger::DepthDetection, Some(D)));
    assert_eq!(pipes.len(), 2);
    apply(&mut pipes, &on_removed(2, ReadbackTrigger::DepthDetection));
    assert_eq!(pipes, before);
}

#[test]
fn updates_recreate_pipes_in_passes() {
    let small = Dimensions { width: 2, height: 4 };
    let cameras = vec![
        ChangedCamera { entity: 1, dimensions: D, depth_detection: true, edge_detection: false },
        ChangedCamera { entity: 2, dimensions: small, depth_detection: true, edge_detection: true },
    ];
    let actions = plan_updates(&cameras);
    assert_eq!(
        actions,
        vec![
            ReadbackAction::CreatePipe { entity: 1, kind: ReadbackKind::Color, dimensions: D },
            ReadbackAction::Target(CameraTargetingMessage { targeter_entity: 1, target_entity: 1 }),
            ReadbackAction::CreatePipe { entity: 2, kind: ReadbackKind::Color, dimensions: small },
            ReadbackAction::Target(CameraTargetingMessage { targeter_entity: 2, target_entity: 2 }),
            ReadbackAction::CreatePipe { entity: 1, kind: ReadbackKind::Depth, dimensions: D },
            ReadbackAction::CreatePipe { entity: 2, kind: ReadbackKind::Depth, dimensions: small },
            ReadbackAction::CreatePipe { entity: 2, kind: ReadbackKind::Sobel, dimensions: small },
        ]
    );
}

#[test]
fn updates_refresh_pipe_dimensions() {
    let mut pipes = BTreeMap::new();
    pipes.insert((1, 0), Dimensions { width: 1, height: 1 });
    pipes.insert((1, 1), Dimensions { width: 1, height: 1 });
    pipes.insert((9, 2), Dimensions { width: 3, height: 3 });
    let cameras = vec![ChangedCamera { entity: 1, dimensions: D, depth_detection: true, edge_detection: false }];
    apply(&mut pipes, &plan_updates(&cameras));
    assert_eq!(pipes[&(1, 0)], D);
    assert_eq!(pipes[&(1, 1)], D);
    assert_eq!(pipes[&(9, 2)], Dimensions { width: 3, height: 3 });
    assert_eq!(pipes.len(), 3);
}

#[test]
fn no_changed_cameras_no_actions() {
    assert!(plan_updates(&vec![]).is_empty());
}
