//! Camera targeting: which entities render into which camera's image.
//!
//! Entities are named by their 64-bit identifiers.
use vstd::prelude::*;

verus! {

/// Asks that `targeter_entity` render into the image of the camera on
/// `target_entity`.
#[derive(Clone, Copy, Debug, PartialEq, Eq, Structural)]
pub struct CameraTargetingMessage {
    pub targeter_entity: u64,
    pub target_entity: u64,
}

/// A camera that can be targeted: an entity holding a camera and its image
/// sender, with the subcameras that composite into it.
#[derive(Debug)]
pub struct TargetCamera {
    pub entity: u64,
    pub subcameras: Vec<u64>,
}

/// `entity` is to render into the image of the camera on `image_of`.
#[derive(Clone, Copy, Debug, PartialEq, Eq, Structural)]
pub struct RenderTargetAssignment {
    pub entity: u64,
    pub image_of: u64,
}

/// The message a camera sends when its readback is (re)created: it renders
/// into its own image.
pub fn camera_readback_message(entity: u64) -> (m: CameraTargetingMessage)
    ensures
        m == (CameraTargetingMessage { targeter_entity: entity, target_entity: entity }),
{
    CameraTargetingMessage { targeter_entity: entity, target_entity: entity }
}

/// The message a subcamera sends when it is attached to `target`.
pub fn subcamera_message(subcamera: u64, target: u64) -> (m: CameraTargetingMessage)
    ensures
        m == (CameraTargetingMessage { targeter_entity: subcamera, target_entity: target }),
{
    CameraTargetingMessage { targeter_entity: subcamera, target_entity: target }
}

/// Whether some camera in `cameras` sits on `entity`.
pub open spec fn has_camera(cameras: Seq<TargetCamera>, entity: u64) -> bool {
    exists|i: int| 0 <= i < cameras.len() && #[trigger] cameras[i].entity == entity
}

/// The index of the first camera in `cameras` that sits on `entity`.
pub open spec fn camera_index(cameras: Seq<TargetCamera>, entity: u64) -> int
    decreases cameras.len(),
{
    if cameras.len() == 0 {
        0
    } else if cameras.last().entity == entity && !has_camera(cameras.drop_last(), entity) {
        cameras.len() - 1
    } else {
        camera_index(cameras.drop_last(), entity)
    }
}

/// Whether every message targets an entity that holds a camera.
pub open spec fn all_targets_known(
    messages: Seq<CameraTargetingMessage>,
    cameras: Seq<TargetCamera>,
) -> bool {
    forall|k: int| 0 <= k < messages.len() ==> has_camera(cameras, #[trigger] messages[k].target_entity)
}

/// The subcameras of the camera on `entity`.
pub open spec fn subcameras_of(cameras: Seq<TargetCamera>, entity: u64) -> Seq<u64> {
    cameras[camera_index(cameras, entity)].subcameras@
}

/// What one message does: every subcamera of the target, in order, and then
/// the targeter itself render into the target's image.
pub open spec fn message_assignments(
    message: CameraTargetingMessage,
    cameras: Seq<TargetCamera>,
) -> Seq<RenderTargetAssignment> {
    subcameras_of(cameras, message.target_entity).map_values(
        |s: u64| RenderTargetAssignment { entity: s, image_of: message.target_entity },
    ).push(RenderTargetAssignment { entity: message.targeter_entity, image_of: message.target_entity })
}

/// What a batch of messages does: each message's assignments, in the order
/// the messages came.
pub open spec fn spec_plan_targeting(
    messages: Seq<CameraTargetingMessage>,
    cameras: Seq<TargetCamera>,
) -> Seq<RenderTargetAssignment>
    decreases messages.len(),
{
    if messages.len() == 0 {
        Seq::empty()
    } else {
        spec_plan_targeting(messages.drop_last(), cameras) + message_assignments(
            messages.last(),
            cameras,
        )
    }
}

proof fn lemma_camera_index(cameras: Seq<TargetCamera>, entity: u64)
    requires
        has_camera(cameras, entity),
    ensures
        0 <= camera_index(cameras, entity) < cameras.len(),
        cameras[camera_index(cameras, entity)].entity == entity,
        forall|i: int| 0 <= i < camera_index(cameras, entity) ==> #[trigger] cameras[i].entity != entity,
    decreases cameras.len(),
{
    let prefix = cameras.drop_last();
    if has_camera(prefix, entity) {
        lemma_camera_index(prefix, entity);
        assert forall|i: int| 0 <= i < camera_index(cameras, entity) implies #[trigger] cameras[i].entity
            != entity by {
            assert(cameras[i] == prefix[i]);
        }
    } else {
        let i = choose|i: int| 0 <= i < cameras.len() && #[trigger] cameras[i].entity == entity;
        if i < cameras.len() - 1 {
            assert(prefix[i].entity == entity);
        }
        assert forall|j: int| 0 <= j < cameras.len() - 1 implies #[trigger] cameras[j].entity != entity by {
            if cameras[j].entity == entity {
                assert(prefix[j].entity == entity);
            }
        }
    }
}

/// Finds the first camera that sits on `entity`.
fn find_camera(cameras: &Vec<TargetCamera>, entity: u64) -> (i: usize)
    requires
        has_camera(cameras@, entity),
    ensures
        i == camera_index(cameras@, entity),
        i < cameras.len(),
{
    proof {
        lemma_camera_index(cameras@, entity);
    }
    let mut i: usize = 0;
    while i < cameras.len()
        invariant
            0 <= i <= camera_index(cameras@, entity),
            0 <= camera_index(cameras@, entity) < cameras.len(),
            cameras@[camera_index(cameras@, entity)].entity == entity,
            forall|j: int| 0 <= j < camera_index(cameras@, entity) ==> #[trigger] cameras@[j].entity != entity,
        decreases cameras.len() - i,
    {
        if cameras[i].entity == entity {
            return i;
        }
        i = i + 1;
    }
    i
}

/// Works out, for a batch of targeting messages, which entity renders into
/// which camera's image, in the order the assignments are to be made.
/// Every message must target an entity that holds a camera.
pub fn plan_targeting(
    messages: &Vec<CameraTargetingMessage>,
    cameras: &Vec<TargetCamera>,
) -> (plan: Vec<RenderTargetAssignment>)
    requires
        all_targets_known(messages@, cameras@),
    ensures
        plan@ == spec_plan_targeting(messages@, cameras@),
{
    let mut plan: Vec<RenderTargetAssignment> = Vec::new();
    let mut k: usize = 0;
    while k < messages.len()
        invariant
            0 <= k <= messages.len(),
            all_targets_known(messages@, cameras@),
            plan@ == spec_plan_targeting(messages@.take(k as int), cameras@),
        decreases messages.len() - k,
    {
        let message = messages[k];
        assert(has_camera(cameras@, messages@[k as int].target_entity));
        let c = find_camera(cameras, message.target_entity);
        let subcameras = &cameras[c].subcameras;
        let ghost before = plan@;
        let ghost subs = subcameras_of(cameras@, message.target_entity);
        let mut j: usize = 0;
        while j < subcameras.len()
            invariant
                0 <= j <= subcameras.len(),
                subcameras@ == subs,
                plan@ == before + subs.take(j as int).map_values(
                    |s: u64| RenderTargetAssignment { entity: s, image_of: message.target_entity },
                ),
            decreases subcameras.len() - j,
        {
            plan.push(RenderTargetAssignment { entity: subcameras[j], image_of: message.target_entity });
            assert(subs.take(j + 1) == subs.take(j as int).push(subs[j as int]));
            j = j + 1;
        }
        assert(subs.take(j as int) == subs);
        plan.push(RenderTargetAssignment { entity: message.targeter_entity, image_of: message.target_entity });
        assert(messages@.take(k + 1).drop_last() == messages@.take(k as int));
        assert(messages@.take(k + 1).last() == message);
        k = k + 1;
    }
    assert(messages@.take(k as int) == messages@);
    plan
}


/// Whether handling `message` points `a.entity` at `a.image_of`: the targeter
/// and every subcamera of the target render into the target's image.
pub open spec fn message_points(
    message: CameraTargetingMessage,
    cameras: Seq<TargetCamera>,
    a: RenderTargetAssignment,
) -> bool {
    &&& a.image_of == message.target_entity
    &&& (a.entity == message.targeter_entity || subcameras_of(cameras, message.target_entity).contains(
        a.entity,
    ))
}

/// A batch of targeting messages makes exactly the assignments its messages
/// ask for: an entity is pointed at a camera's image if and only if some
/// message targets that camera and the entity is the message's targeter or
/// one of the camera's subcameras.
pub proof fn lemma_plan_makes_exactly_the_requested_assignments(
    messages: Seq<CameraTargetingMessage>,
    cameras: Seq<TargetCamera>,
    a: RenderTargetAssignment,
)
    ensures
        spec_plan_targeting(messages, cameras).contains(a) <==> exists|k: int|
            0 <= k < messages.len() && #[trigger] message_points(messages[k], cameras, a),
    decreases messages.len(),
{
    if messages.len() > 0 {
        let prefix = messages.drop_last();
        let m = messages.last();
        lemma_plan_makes_exactly_the_requested_assignments(prefix, cameras, a);
        let rest = spec_plan_targeting(prefix, cameras);
        let mine = message_assignments(m, cameras);
        let subs = subcameras_of(cameras, m.target_entity);
        let mapped = subs.map_values(|s: u64| RenderTargetAssignment { entity: s, image_of: m.target_entity });
        assert(spec_plan_targeting(messages, cameras) == rest + mine);
        assert(mine.contains(a) <==> message_points(m, cameras, a)) by {
            if message_points(m, cameras, a) {
                if a.entity == m.targeter_entity {
                    assert(mine[mine.len() - 1] == a);
                } else {
                    let i = choose|i: int| 0 <= i < subs.len() && subs[i] == a.entity;
                    assert(mine[i] == a);
                }
            }
            if mine.contains(a) {
                let i = choose|i: int| 0 <= i < mine.len() && mine[i] == a;
                if i < mapped.len() {
                    assert(subs[i] == a.entity);
                }
            }
        }
        if spec_plan_targeting(messages, cameras).contains(a) {
            let i = choose|i: int|
                0 <= i < (rest + mine).len() && #[trigger] (rest + mine)[i] == a;
            if i < rest.len() {
                assert(rest[i] == a);
                let k = choose|k: int| 0 <= k < prefix.len() && #[trigger] message_points(prefix[k], cameras, a);
                assert(messages[k] == prefix[k]);
            } else {
                assert(mine[i - rest.len()] == a);
                assert(messages[messages.len() - 1] == m);
            }
        }
        if exists|k: int| 0 <= k < messages.len() && #[trigger] message_points(messages[k], cameras, a) {
            let k = choose|k: int| 0 <= k < messages.len() && #[trigger] message_points(messages[k], cameras, a);
            if k < messages.len() - 1 {
                assert(prefix[k] == messages[k]);
                assert(message_points(prefix[k], cameras, a));
                let i = choose|i: int| 0 <= i < rest.len() && rest[i] == a;
                assert((rest + mine)[i] == a);
            } else {
                let i = choose|i: int| 0 <= i < mine.len() && mine[i] == a;
                assert((rest + mine)[rest.len() + i] == a);
            }
        }
    }
}

/// The last message of a batch has the last word for its targeter: the final
/// assignment points the targeter at that message's target.
pub proof fn lemma_last_message_has_last_word(
    messages: Seq<CameraTargetingMessage>,
    cameras: Seq<TargetCamera>,
)
    requires
        messages.len() > 0,
    ensures
        spec_plan_targeting(messages, cameras).last() == (RenderTargetAssignment {
            entity: messages.last().targeter_entity,
            image_of: messages.last().target_entity,
        }),
{
}


/// Once a camera's readback message is handled, the camera and each of its
/// subcameras render into the camera's own image.
pub proof fn lemma_readback_message_points_camera_at_itself(
    entity: u64,
    cameras: Seq<TargetCamera>,
    subcamera: u64,
)
    requires
        has_camera(cameras, entity),
        subcameras_of(cameras, entity).contains(subcamera),
    ensures
        ({
            let plan = spec_plan_targeting(
                seq![CameraTargetingMessage { targeter_entity: entity, target_entity: entity }],
                cameras,
            );
            &&& plan.contains(RenderTargetAssignment { entity, image_of: entity })
            &&& plan.contains(RenderTargetAssignment { entity: subcamera, image_of: entity })
        }),
{
    let m = CameraTargetingMessage { targeter_entity: entity, target_entity: entity };
    let messages = seq![m];
    assert(messages[0] == m);
    lemma_plan_makes_exactly_the_requested_assignments(
        messages,
        cameras,
        RenderTargetAssignment { entity, image_of: entity },
    );
    assert(message_points(messages[0], cameras, RenderTargetAssignment { entity, image_of: entity }));
    lemma_plan_makes_exactly_the_requested_assignments(
        messages,
        cameras,
        RenderTargetAssignment { entity: subcamera, image_of: entity },
    );
    assert(message_points(
        messages[0],
        cameras,
        RenderTargetAssignment { entity: subcamera, image_of: entity },
    ));
}

} // verus!
