use ratatui_camera_readback::targeting::{
    camera_readback_message, plan_targeting, subcamera_message, CameraTargetingMessage,
    RenderTargetAssignment, TargetCamera,
};

fn assign(entity: u64, image_of: u64) -> RenderTargetAssignment {
    RenderTargetAssignment { entity, image_of }
}

#[test]
fn camera_readback_message_targets_itself() {
    assert_eq!(
        camera_readback_message(7),
        CameraTargetingMessage { targeter_entity: 7, target_entity: 7 }
    );
}

#[test]
fn subcamera_message_targets_its_camera() {
    assert_eq!(
        subcamera_message(3, 9),
        CameraTargetingMessage { targeter_entity: 3, target_entity: 9 }
    );
}

#[test]
fn camera_without_subcameras_renders_into_own_image() {
    let cameras = vec![TargetCamera { entity: 1, subcameras: vec![] }];
    let plan = plan_targeting(&vec![camera_readback_message(1)], &cameras);
    assert_eq!(plan, vec![assign(1, 1)]);
}

#[test]
fn subcameras_follow_their_camera_before_the_targeter() {
    let cameras = vec![
        TargetCamera { entity: 5, subcameras: vec![] },
        TargetCamera { entity: 1, subcameras: vec![2, 3] },
    ];
    let plan = plan_targeting(&vec![camera_readback_message(1)], &cameras);
    assert_eq!(plan, vec![assign(2, 1), assign(3, 1), assign(1, 1)]);
}

#[test]
fn messages_are_handled_in_order() {
    let cameras = vec![
        TargetCamera { entity: 1, subcameras: vec![4] },
        TargetCamera { entity: 2, subcameras: vec![] },
    ];
    let messages = vec![
        subcamera_message(4, 1),
        camera_readback_message(2),
        CameraTargetingMessage { targeter_entity: 4, target_entity: 2 },
    ];
    let plan = plan_targeting(&messages, &cameras);
    assert_eq!(
        plan,
        vec![assign(4, 1), assign(4, 1), assign(2, 2), assign(4, 2)]
    );
    assert_eq!(*plan.last().unwrap(), assign(4, 2));
}

#[test]
fn first_matching_camera_is_used() {
    let cameras = vec![
        TargetCamera { entity: 1, subcameras: vec![8] },
        TargetCamera { entity: 1, subcameras: vec![9] },
    ];
    let plan = plan_targeting(&vec![camera_readback_message(1)], &cameras);
    assert_eq!(plan, vec![assign(8, 1), assign(1, 1)]);
}

#[test]
fn no_messages_no_assignments() {
    let cameras = vec![TargetCamera { entity: 1, subcameras: vec![2] }];
    assert!(plan_targeting(&vec![], &cameras).is_empty());
}
