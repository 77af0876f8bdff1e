//! Readback pipes: which image pipes an entity gets when a camera or one of
//! its detection settings is inserted, changed or removed.
use vstd::prelude::*;
use crate::area::Dimensions;
use crate::targeting::{CameraTargetingMessage, camera_readback_message};

verus! {

/// The image a readback pipe carries back from the GPU.
#[derive(Clone, Copy, Debug, PartialEq, Eq, Structural)]
pub enum ReadbackKind {
    /// The rendered colours of the camera.
    Color,
    /// The camera's depth buffer.
    Depth,
    /// The edges found by the Sobel filter.
    Sobel,
}

/// A component whose presence on an entity asks for a readback pipe.
#[derive(Clone, Copy, Debug, PartialEq, Eq, Structural)]
pub enum ReadbackTrigger {
    /// The terminal camera itself.
    Camera,
    /// Depth detection on a terminal camera.
    DepthDetection,
    /// Edge detection on a terminal camera.
    EdgeDetection,
}

/// What is inserted on an entity together with a pipe's sender and
/// receiver: the prepasses the readback needs, and whether multisampling is
/// switched off.
#[derive(Clone, Copy, Debug, PartialEq, Eq, Structural)]
pub struct ReadbackComponents {
    pub kind: ReadbackKind,
    pub depth_prepass: bool,
    pub normal_prepass: bool,
    pub msaa_off: bool,
}

/// One thing for the world to do.
#[derive(Clone, Copy, Debug, PartialEq, Eq, Structural)]
pub enum ReadbackAction {
    /// Create a pipe of `kind` for a texture of `dimensions` and insert its
    /// sender, its receiver and the components `components_for(kind)` names
    /// on `entity`, replacing any pipe of that kind it held.
    CreatePipe { entity: u64, kind: ReadbackKind, dimensions: Dimensions },
    /// Remove the sender and receiver of the pipe of `kind` from `entity`.
    RemovePipe { entity: u64, kind: ReadbackKind },
    /// Send a targeting message.
    Target(CameraTargetingMessage),
}

/// The kind of pipe that `trigger` asks for.
pub open spec fn spec_kind_of(trigger: ReadbackTrigger) -> ReadbackKind {
    match trigger {
        ReadbackTrigger::Camera => ReadbackKind::Color,
        ReadbackTrigger::DepthDetection => ReadbackKind::Depth,
        ReadbackTrigger::EdgeDetection => ReadbackKind::Sobel,
    }
}

/// The kind of pipe that `trigger` asks for.
pub fn kind_of(trigger: ReadbackTrigger) -> (k: ReadbackKind)
    ensures
        k == spec_kind_of(trigger),
{
    match trigger {
        ReadbackTrigger::Camera => ReadbackKind::Color,
        ReadbackTrigger::DepthDetection => ReadbackKind::Depth,
        ReadbackTrigger::EdgeDetection => ReadbackKind::Sobel,
    }
}

/// The colour readback needs nothing more; the depth readback needs a depth
/// prepass; the Sobel readback needs depth and normal prepasses. Both of the
/// latter switch multisampling off.
pub open spec fn spec_components_for(kind: ReadbackKind) -> ReadbackComponents {
    match kind {
        ReadbackKind::Color => ReadbackComponents {
            kind,
            depth_prepass: false,
            normal_prepass: false,
            msaa_off: false,
        },
        ReadbackKind::Depth => ReadbackComponents {
            kind,
            depth_prepass: true,
            normal_prepass: false,
            msaa_off: true,
        },
        ReadbackKind::Sobel => ReadbackComponents {
            kind,
            depth_prepass: true,
            normal_prepass: true,
            msaa_off: true,
        },
    }
}

/// The components inserted with a pipe of `kind`.
pub fn components_for(kind: ReadbackKind) -> (c: ReadbackComponents)
    ensures
        c == spec_components_for(kind),
        c.kind == kind,
        c.msaa_off <==> kind != ReadbackKind::Color,
        c.normal_prepass ==> c.depth_prepass,
{
    match kind {
        ReadbackKind::Color => ReadbackComponents {
            kind,
            depth_prepass: false,
            normal_prepass: false,
            msaa_off: false,
        },
        ReadbackKind::Depth => ReadbackComponents {
            kind,
            depth_prepass: true,
            normal_prepass: false,
            msaa_off: true,
        },
        ReadbackKind::Sobel => ReadbackComponents {
            kind,
            depth_prepass: true,
            normal_prepass: true,
            msaa_off: true,
        },
    }
}

/// What inserting `trigger` on `entity` does, where `camera_dimensions` are
/// the dimensions of the entity's camera (`None` when it has none): nothing
/// without a camera; otherwise a pipe of the trigger's kind for the camera's
/// dimensions, and, for the camera itself, a message pointing the camera at
/// its own image.
pub open spec fn spec_on_inserted(
    entity: u64,
    trigger: ReadbackTrigger,
    camera_dimensions: Option<Dimensions>,
) -> Seq<ReadbackAction> {
    match camera_dimensions {
        None => Seq::empty(),
        Some(dimensions) => {
            let create = ReadbackAction::CreatePipe {
                entity,
                kind: spec_kind_of(trigger),
                dimensions,
            };
            if trigger == ReadbackTrigger::Camera {
                seq![
                    create,
                    ReadbackAction::Target(
                        CameraTargetingMessage { targeter_entity: entity, target_entity: entity },
                    ),
                ]
            } else {
                seq![create]
            }
        },
    }
}

/// The actions for inserting `trigger` on `entity`.
pub fn on_inserted(
    entity: u64,
    trigger: ReadbackTrigger,
    camera_dimensions: Option<Dimensions>,
) -> (actions: Vec<ReadbackAction>)
    ensures
        actions@ == spec_on_inserted(entity, trigger, camera_dimensions),
        camera_dimensions is None ==> actions@.len() == 0,
        camera_dimensions is Some && trigger == ReadbackTrigger::Camera ==> actions@ == seq![
            ReadbackAction::CreatePipe { entity, kind: ReadbackKind::Color, dimensions: camera_dimensions->0 },
            ReadbackAction::Target(
                CameraTargetingMessage { targeter_entity: entity, target_entity: entity },
            ),
        ],
        camera_dimensions is Some && trigger == ReadbackTrigger::DepthDetection ==> actions@
            == seq![ReadbackAction::CreatePipe { entity, kind: ReadbackKind::Depth, dimensions: camera_dimensions->0 }],
        camera_dimensions is Some && trigger == ReadbackTrigger::EdgeDetection ==> actions@
            == seq![ReadbackAction::CreatePipe { entity, kind: ReadbackKind::Sobel, dimensions: camera_dimensions->0 }],
{
    let mut actions: Vec<ReadbackAction> = Vec::new();
    match camera_dimensions {
        None => {},
        Some(dimensions) => {
            actions.push(ReadbackAction::CreatePipe { entity, kind: kind_of(trigger), dimensions });
            if trigger == ReadbackTrigger::Camera {
                actions.push(ReadbackAction::Target(camera_readback_message(entity)));
            }
        },
    }
    actions
}

/// What removing `trigger` from `entity` does: the pipe of its kind goes.
pub open spec fn spec_on_removed(entity: u64, trigger: ReadbackTrigger) -> Seq<ReadbackAction> {
    seq![ReadbackAction::RemovePipe { entity, kind: spec_kind_of(trigger) }]
}

/// The actions for removing `trigger` from `entity`.
pub fn on_removed(entity: u64, trigger: ReadbackTrigger) -> (actions: Vec<ReadbackAction>)
    ensures
        actions@ == spec_on_removed(entity, trigger),
{
    let mut actions: Vec<ReadbackAction> = Vec::new();
    actions.push(ReadbackAction::RemovePipe { entity, kind: kind_of(trigger) });
    actions
}

/// A camera whose settings changed since the last update, with its current
/// dimensions and the detections it carries.
#[derive(Clone, Copy, Debug, PartialEq, Eq, Structural)]
pub struct ChangedCamera {
    pub entity: u64,
    pub dimensions: Dimensions,
    pub depth_detection: bool,
    pub edge_detection: bool,
}

/// Whether `camera` carries `trigger`.
pub open spec fn carries(camera: ChangedCamera, trigger: ReadbackTrigger) -> bool {
    match trigger {
        ReadbackTrigger::Camera => true,
        ReadbackTrigger::DepthDetection => camera.depth_detection,
        ReadbackTrigger::EdgeDetection => camera.edge_detection,
    }
}

/// One pass over the changed cameras for one trigger: every camera that
/// carries it gets its pipe recreated, in order.
pub open spec fn spec_update_pass(
    cameras: Seq<ChangedCamera>,
    trigger: ReadbackTrigger,
) -> Seq<ReadbackAction>
    decreases cameras.len(),
{
    if cameras.len() == 0 {
        Seq::empty()
    } else {
        let c = cameras.last();
        spec_update_pass(cameras.drop_last(), trigger) + if carries(c, trigger) {
            spec_on_inserted(c.entity, trigger, Some(c.dimensions))
        } else {
            Seq::empty()
        }
    }
}

/// What an update does: the colour pipes of all changed cameras, then their
/// depth pipes, then their Sobel pipes.
pub open spec fn spec_plan_updates(cameras: Seq<ChangedCamera>) -> Seq<ReadbackAction> {
    spec_update_pass(cameras, ReadbackTrigger::Camera) + spec_update_pass(
        cameras,
        ReadbackTrigger::DepthDetection,
    ) + spec_update_pass(cameras, ReadbackTrigger::EdgeDetection)
}

fn push_update_pass(
    actions: &mut Vec<ReadbackAction>,
    cameras: &Vec<ChangedCamera>,
    trigger: ReadbackTrigger,
)
    ensures
        final(actions)@ == old(actions)@ + spec_update_pass(cameras@, trigger),
{
    let ghost start = actions@;
    let mut i: usize = 0;
    while i < cameras.len()
        invariant
            0 <= i <= cameras.len(),
            actions@ == start + spec_update_pass(cameras@.take(i as int), trigger),
        decreases cameras.len() - i,
    {
        let c = cameras[i];
        let carried = match trigger {
            ReadbackTrigger::Camera => true,
            ReadbackTrigger::DepthDetection => c.depth_detection,
            ReadbackTrigger::EdgeDetection => c.edge_detection,
        };
        let ghost before = actions@;
        if carried {
            let mut step = on_inserted(c.entity, trigger, Some(c.dimensions));
            actions.append(&mut step);
        }
        assert(cameras@.take(i + 1).drop_last() == cameras@.take(i as int));
        assert(cameras@.take(i + 1).last() == c);
        assert(actions@ == before + (if carries(c, trigger) {
            spec_on_inserted(c.entity, trigger, Some(c.dimensions))
        } else {
            Seq::empty()
        }));
        i = i + 1;
    }
    assert(cameras@.take(i as int) == cameras@);
}

/// The actions for cameras whose settings changed: every camera gets a new
/// colour pipe for its current dimensions and points at its own image; then
/// those with depth detection get a new depth pipe; then those with edge
/// detection a new Sobel pipe.
pub fn plan_updates(cameras: &Vec<ChangedCamera>) -> (actions: Vec<ReadbackAction>)
    ensures
        actions@ == spec_plan_updates(cameras@),
        update_plan_layout(cameras@, actions@),
{
    proof {
        lemma_update_plan_layout(cameras@);
    }
    let mut actions: Vec<ReadbackAction> = Vec::new();
    push_update_pass(&mut actions, cameras, ReadbackTrigger::Camera);
    push_update_pass(&mut actions, cameras, ReadbackTrigger::DepthDetection);
    push_update_pass(&mut actions, cameras, ReadbackTrigger::EdgeDetection);
    actions
}


/// The readback pipes held in a world: the entity and kind of each pipe,
/// with the dimensions of the texture it reads back.
pub type PipeTable = Map<(u64, ReadbackKind), Dimensions>;

/// What one action does to the pipes held in a world.
pub open spec fn apply_action(pipes: PipeTable, action: ReadbackAction) -> PipeTable {
    match action {
        ReadbackAction::CreatePipe { entity, kind, dimensions } => pipes.insert((entity, kind), dimensions),
        ReadbackAction::RemovePipe { entity, kind } => pipes.remove((entity, kind)),
        ReadbackAction::Target(_) => pipes,
    }
}

/// What a sequence of actions, performed in order, does to the pipes.
pub open spec fn apply_actions(pipes: PipeTable, actions: Seq<ReadbackAction>) -> PipeTable
    decreases actions.len(),
{
    if actions.len() == 0 {
        pipes
    } else {
        apply_action(apply_actions(pipes, actions.drop_last()), actions.last())
    }
}

proof fn lemma_apply_single(pipes: PipeTable, action: ReadbackAction)
    ensures
        apply_actions(pipes, seq![action]) == apply_action(pipes, action),
{
    let single = seq![action];
    assert(single.drop_last() =~= Seq::<ReadbackAction>::empty());
    assert(apply_actions(pipes, Seq::<ReadbackAction>::empty()) == pipes);
    assert(single.last() == action);
}

proof fn lemma_apply_concat(pipes: PipeTable, a: Seq<ReadbackAction>, b: Seq<ReadbackAction>)
    ensures
        apply_actions(pipes, a + b) == apply_actions(apply_actions(pipes, a), b),
    decreases b.len(),
{
    if b.len() == 0 {
        assert(a + b == a);
    } else {
        lemma_apply_concat(pipes, a, b.drop_last());
        assert((a + b).drop_last() == a + b.drop_last());
        assert((a + b).last() == b.last());
    }
}

/// Inserting a trigger on an entity that holds a camera gives it a pipe of
/// the trigger's kind for the camera's dimensions, replacing any pipe of that
/// kind and touching no other; without a camera nothing changes.
pub proof fn lemma_insert_creates_pipe(
    pipes: PipeTable,
    entity: u64,
    trigger: ReadbackTrigger,
    camera_dimensions: Option<Dimensions>,
)
    ensures
        apply_actions(pipes, spec_on_inserted(entity, trigger, camera_dimensions)) == match camera_dimensions {
            None => pipes,
            Some(d) => pipes.insert((entity, spec_kind_of(trigger)), d),
        },
{
    let actions = spec_on_inserted(entity, trigger, camera_dimensions);
    if let Some(d) = camera_dimensions {
        let create = ReadbackAction::CreatePipe { entity, kind: spec_kind_of(trigger), dimensions: d };
        lemma_apply_single(pipes, create);
        if trigger == ReadbackTrigger::Camera {
            let target = ReadbackAction::Target(
                CameraTargetingMessage { targeter_entity: entity, target_entity: entity },
            );
            assert(actions =~= seq![create] + seq![target]);
            lemma_apply_concat(pipes, seq![create], seq![target]);
            lemma_apply_single(apply_actions(pipes, seq![create]), target);
        } else {
            assert(actions =~= seq![create]);
        }
    }
}

/// Removing a trigger undoes inserting it: the entity no longer holds a pipe
/// of the trigger's kind, and every other pipe is as it was before.
pub proof fn lemma_remove_undoes_insert(
    pipes: PipeTable,
    entity: u64,
    trigger: ReadbackTrigger,
    dimensions: Dimensions,
)
    ensures
        apply_actions(
            apply_actions(pipes, spec_on_inserted(entity, trigger, Some(dimensions))),
            spec_on_removed(entity, trigger),
        ) == pipes.remove((entity, spec_kind_of(trigger))),
{
    lemma_insert_creates_pipe(pipes, entity, trigger, Some(dimensions));
    let key = (entity, spec_kind_of(trigger));
    let removal = spec_on_removed(entity, trigger);
    lemma_apply_single(pipes.insert(key, dimensions), removal[0]);
    assert(removal =~= seq![removal[0]]);
    assert(pipes.insert(key, dimensions).remove(key) =~= pipes.remove(key));
}

/// Whether some camera in `cameras` carries `trigger` and sits on `entity`.
pub open spec fn pass_touches(cameras: Seq<ChangedCamera>, trigger: ReadbackTrigger, entity: u64) -> bool {
    exists|i: int| 0 <= i < cameras.len() && carries(cameras[i], trigger) && #[trigger] cameras[i].entity == entity
}

/// Whether no two cameras sit on the same entity, as in any query's results.
pub open spec fn distinct_entities(cameras: Seq<ChangedCamera>) -> bool {
    forall|i: int, j: int| 0 <= i < j < cameras.len() ==> cameras[i].entity != cameras[j].entity
}

proof fn lemma_update_pass(pipes: PipeTable, cameras: Seq<ChangedCamera>, trigger: ReadbackTrigger)
    requires
        distinct_entities(cameras),
    ensures
        ({
            let after = apply_actions(pipes, spec_update_pass(cameras, trigger));
            &&& forall|i: int| 0 <= i < cameras.len() && carries(cameras[i], trigger) ==>
                #[trigger] after.contains_key((cameras[i].entity, spec_kind_of(trigger))) && after[(
                cameras[i].entity,
                spec_kind_of(trigger),
            )] == cameras[i].dimensions
            &&& forall|key: (u64, ReadbackKind)| #[trigger] pipes.contains_key(key) ==> after.contains_key(key)
            &&& forall|key: (u64, ReadbackKind)|
                !(key.1 == spec_kind_of(trigger) && pass_touches(cameras, trigger, key.0)) ==> (
                #[trigger] after.contains_key(key) == pipes.contains_key(key) && (pipes.contains_key(key)
                    ==> after[key] == pipes[key]))
        }),
    decreases cameras.len(),
{
    if cameras.len() > 0 {
        let prefix = cameras.drop_last();
        let c = cameras.last();
        assert(distinct_entities(prefix));
        lemma_update_pass(pipes, prefix, trigger);
        let mid = apply_actions(pipes, spec_update_pass(prefix, trigger));
        let step = if carries(c, trigger) {
            spec_on_inserted(c.entity, trigger, Some(c.dimensions))
        } else {
            Seq::empty()
        };
        lemma_apply_concat(pipes, spec_update_pass(prefix, trigger), step);
        lemma_insert_creates_pipe(mid, c.entity, trigger, Some(c.dimensions));
        let after = apply_actions(pipes, spec_update_pass(cameras, trigger));
        let k = spec_kind_of(trigger);
        assert forall|i: int| 0 <= i < cameras.len() && carries(cameras[i], trigger) implies
            #[trigger] after.contains_key((cameras[i].entity, k)) && after[(cameras[i].entity, k)]
            == cameras[i].dimensions by {
            if i < cameras.len() - 1 {
                assert(prefix[i] == cameras[i]);
                assert(cameras[i].entity != c.entity);
            }
        }
        assert forall|key: (u64, ReadbackKind)|
            !(key.1 == k && pass_touches(cameras, trigger, key.0)) implies (
            #[trigger] after.contains_key(key) == pipes.contains_key(key) && (pipes.contains_key(key)
                ==> after[key] == pipes[key])) by {
            if key.1 == k && pass_touches(prefix, trigger, key.0) {
                let i = choose|i: int| 0 <= i < prefix.len() && carries(prefix[i], trigger) && #[trigger] prefix[i].entity == key.0;
                assert(cameras[i] == prefix[i]);
            }
            if carries(c, trigger) && key == (c.entity, k) {
                assert(cameras[cameras.len() - 1] == c);
            }
        }
    }
}

/// After an update, every changed camera holds a pipe of each kind it asks
/// for, sized to its current dimensions; no pipe is lost, and pipes of
/// other entities, or of kinds a camera does not ask for, are as they were.
pub proof fn lemma_updates_refresh_pipes(pipes: PipeTable, cameras: Seq<ChangedCamera>)
    requires
        distinct_entities(cameras),
    ensures
        ({
            let after = apply_actions(pipes, spec_plan_updates(cameras));
            &&& forall|i: int, t: ReadbackTrigger| 0 <= i < cameras.len() && carries(cameras[i], t) ==>
                #[trigger] after.contains_key((cameras[i].entity, spec_kind_of(t))) && after[(
                cameras[i].entity,
                spec_kind_of(t),
            )] == cameras[i].dimensions
            &&& forall|key: (u64, ReadbackKind)| #[trigger] pipes.contains_key(key) ==> after.contains_key(key)
            &&& forall|key: (u64, ReadbackKind)|
                !(exists|t: ReadbackTrigger| key.1 == spec_kind_of(t) && #[trigger] pass_touches(cameras, t, key.0)) ==> (
                #[trigger] after.contains_key(key) == pipes.contains_key(key) && (pipes.contains_key(key)
                    ==> after[key] == pipes[key]))
        }),
{
    let p1 = spec_update_pass(cameras, ReadbackTrigger::Camera);
    let p2 = spec_update_pass(cameras, ReadbackTrigger::DepthDetection);
    let p3 = spec_update_pass(cameras, ReadbackTrigger::EdgeDetection);
    lemma_apply_concat(pipes, p1 + p2, p3);
    lemma_apply_concat(pipes, p1, p2);
    let s1 = apply_actions(pipes, p1);
    let s2 = apply_actions(s1, p2);
    let s3 = apply_actions(s2, p3);
    lemma_update_pass(pipes, cameras, ReadbackTrigger::Camera);
    lemma_update_pass(s1, cameras, ReadbackTrigger::DepthDetection);
    lemma_update_pass(s2, cameras, ReadbackTrigger::EdgeDetection);
    assert forall|i: int, t: ReadbackTrigger| 0 <= i < cameras.len() && carries(cameras[i], t) implies
        #[trigger] s3.contains_key((cameras[i].entity, spec_kind_of(t))) && s3[(cameras[i].entity, spec_kind_of(t))]
        == cameras[i].dimensions by {
        let key = (cameras[i].entity, spec_kind_of(t));
        assert(s1.contains_key((cameras[i].entity, spec_kind_of(ReadbackTrigger::Camera))));
        assert(pass_touches(cameras, t, cameras[i].entity));
        match t {
            ReadbackTrigger::Camera => {
                assert(!(key.1 == spec_kind_of(ReadbackTrigger::DepthDetection)));
                assert(s2.contains_key(key) && s2[key] == s1[key]);
                assert(!(key.1 == spec_kind_of(ReadbackTrigger::EdgeDetection)));
            },
            ReadbackTrigger::DepthDetection => {
                assert(s2.contains_key(key));
                assert(!(key.1 == spec_kind_of(ReadbackTrigger::EdgeDetection)));
            },
            ReadbackTrigger::EdgeDetection => {
                assert(s3.contains_key(key));
            },
        }
    }
    assert forall|key: (u64, ReadbackKind)|
        !(exists|t: ReadbackTrigger| key.1 == spec_kind_of(t) && #[trigger] pass_touches(cameras, t, key.0)) implies (
        #[trigger] s3.contains_key(key) == pipes.contains_key(key) && (pipes.contains_key(key) ==> s3[key]
            == pipes[key])) by {
        assert(!(key.1 == spec_kind_of(ReadbackTrigger::Camera) && pass_touches(cameras, ReadbackTrigger::Camera, key.0)));
        assert(!(key.1 == spec_kind_of(ReadbackTrigger::DepthDetection) && pass_touches(cameras, ReadbackTrigger::DepthDetection, key.0)));
        assert(!(key.1 == spec_kind_of(ReadbackTrigger::EdgeDetection) && pass_touches(cameras, ReadbackTrigger::EdgeDetection, key.0)));
    }
    assert forall|key: (u64, ReadbackKind)| #[trigger] pipes.contains_key(key) implies s3.contains_key(key) by {
        assert(s1.contains_key(key));
        assert(s2.contains_key(key));
    }
}


/// What inserting a trigger does, action by action: with a camera of
/// dimensions `d`, inserting the camera creates a colour pipe of `d` on the
/// entity and then points the entity at its own image; inserting depth or
/// edge detection creates a depth or Sobel pipe of `d` on the entity and
/// nothing else; without a camera nothing happens.
pub proof fn lemma_insert_actions(
    entity: u64,
    trigger: ReadbackTrigger,
    camera_dimensions: Option<Dimensions>,
)
    ensures
        ({
            let a = spec_on_inserted(entity, trigger, camera_dimensions);
            &&& camera_dimensions is None ==> a.len() == 0
            &&& camera_dimensions is Some && trigger == ReadbackTrigger::Camera ==> ({
                let d = camera_dimensions->0;
                &&& a.len() == 2
                &&& a[0] == ReadbackAction::CreatePipe { entity, kind: ReadbackKind::Color, dimensions: d }
                &&& a[1] is Target
                &&& a[1]->Target_0.targeter_entity == entity
                &&& a[1]->Target_0.target_entity == entity
            })
            &&& camera_dimensions is Some && trigger == ReadbackTrigger::DepthDetection ==> ({
                let d = camera_dimensions->0;
                &&& a.len() == 1
                &&& a[0] == ReadbackAction::CreatePipe { entity, kind: ReadbackKind::Depth, dimensions: d }
            })
            &&& camera_dimensions is Some && trigger == ReadbackTrigger::EdgeDetection ==> ({
                let d = camera_dimensions->0;
                &&& a.len() == 1
                &&& a[0] == ReadbackAction::CreatePipe { entity, kind: ReadbackKind::Sobel, dimensions: d }
            })
        }),
{
}

/// Whether `action` creates the depth pipe of one of `cameras` that has
/// depth detection, at that camera's dimensions.
pub open spec fn is_depth_pipe_of(cameras: Seq<ChangedCamera>, action: ReadbackAction) -> bool {
    exists|i: int|
        #![trigger cameras[i]]
        0 <= i < cameras.len() && cameras[i].depth_detection && action == ReadbackAction::CreatePipe {
            entity: cameras[i].entity,
            kind: ReadbackKind::Depth,
            dimensions: cameras[i].dimensions,
        }
}

/// Whether `action` creates the Sobel pipe of one of `cameras` that has
/// edge detection, at that camera's dimensions.
pub open spec fn is_sobel_pipe_of(cameras: Seq<ChangedCamera>, action: ReadbackAction) -> bool {
    exists|i: int|
        #![trigger cameras[i]]
        0 <= i < cameras.len() && cameras[i].edge_detection && action == ReadbackAction::CreatePipe {
            entity: cameras[i].entity,
            kind: ReadbackKind::Sobel,
            dimensions: cameras[i].dimensions,
        }
}

/// Whether `action` creates a Sobel pipe.
pub open spec fn creates_sobel(action: ReadbackAction) -> bool {
    action matches ReadbackAction::CreatePipe { kind: ReadbackKind::Sobel, .. }
}

/// The layout of an update's actions, for `n` changed cameras: first, for
/// every camera in order and whatever its detections, a colour pipe of its
/// dimensions followed by a message pointing it at its own image; after
/// those, only depth pipes of cameras with depth detection and Sobel pipes
/// of cameras with edge detection, the Sobel pipes last, and every such
/// camera getting its pipe.
pub open spec fn update_plan_layout(cameras: Seq<ChangedCamera>, actions: Seq<ReadbackAction>) -> bool {
    let n: int = cameras.len() as int;
    &&& actions.len() >= 2 * n
    &&& forall|i: int| 0 <= i < n ==> #[trigger] actions[2 * i] == (ReadbackAction::CreatePipe {
        entity: cameras[i].entity,
        kind: ReadbackKind::Color,
        dimensions: cameras[i].dimensions,
    })
    &&& forall|i: int| 0 <= i < n ==> #[trigger] actions[2 * i + 1] == ReadbackAction::Target(
        CameraTargetingMessage { targeter_entity: cameras[i].entity, target_entity: cameras[i].entity },
    )
    &&& forall|k: int| 2 * n <= k < actions.len() ==> is_depth_pipe_of(cameras, #[trigger] actions[k])
        || is_sobel_pipe_of(cameras, actions[k])
    &&& forall|k1: int, k2: int|
        2 * n <= k1 < k2 < actions.len() && creates_sobel(#[trigger] actions[k1]) ==> creates_sobel(
            #[trigger] actions[k2],
        )
    &&& forall|i: int| 0 <= i < n && #[trigger] cameras[i].depth_detection ==> actions.subrange(
        2 * n,
        actions.len() as int,
    ).contains(
        ReadbackAction::CreatePipe {
            entity: cameras[i].entity,
            kind: ReadbackKind::Depth,
            dimensions: cameras[i].dimensions,
        },
    )
    &&& forall|i: int| 0 <= i < n && #[trigger] cameras[i].edge_detection ==> actions.subrange(
        2 * n,
        actions.len() as int,
    ).contains(
        ReadbackAction::CreatePipe {
            entity: cameras[i].entity,
            kind: ReadbackKind::Sobel,
            dimensions: cameras[i].dimensions,
        },
    )
}

proof fn lemma_camera_pass(cameras: Seq<ChangedCamera>)
    ensures
        ({
            let p = spec_update_pass(cameras, ReadbackTrigger::Camera);
            &&& p.len() == 2 * cameras.len()
            &&& forall|i: int| 0 <= i < cameras.len() ==> #[trigger] p[2 * i] == (ReadbackAction::CreatePipe {
                entity: cameras[i].entity,
                kind: ReadbackKind::Color,
                dimensions: cameras[i].dimensions,
            })
            &&& forall|i: int| 0 <= i < cameras.len() ==> #[trigger] p[2 * i + 1] == ReadbackAction::Target(
                CameraTargetingMessage { targeter_entity: cameras[i].entity, target_entity: cameras[i].entity },
            )
        }),
    decreases cameras.len(),
{
    if cameras.len() > 0 {
        let prefix = cameras.drop_last();
        lemma_camera_pass(prefix);
        let c = cameras.last();
        let rest = spec_update_pass(prefix, ReadbackTrigger::Camera);
        let step = spec_on_inserted(c.entity, ReadbackTrigger::Camera, Some(c.dimensions));
        let p = spec_update_pass(cameras, ReadbackTrigger::Camera);
        assert(p == rest + step);
        assert forall|i: int| 0 <= i < cameras.len() implies #[trigger] p[2 * i] == (ReadbackAction::CreatePipe {
            entity: cameras[i].entity,
            kind: ReadbackKind::Color,
            dimensions: cameras[i].dimensions,
        }) && p[2 * i + 1] == ReadbackAction::Target(
            CameraTargetingMessage { targeter_entity: cameras[i].entity, target_entity: cameras[i].entity },
        ) by {
            if i < cameras.len() - 1 {
                assert(prefix[i] == cameras[i]);
                assert(rest[2 * i] == p[2 * i]);
                assert(rest[2 * i + 1] == p[2 * i + 1]);
            } else {
                assert(cameras[i] == c);
                assert(p[2 * i] == step[0]);
                assert(p[2 * i + 1] == step[1]);
            }
        }
    }
}

proof fn lemma_detection_pass(cameras: Seq<ChangedCamera>, trigger: ReadbackTrigger)
    requires
        trigger != ReadbackTrigger::Camera,
    ensures
        ({
            let p = spec_update_pass(cameras, trigger);
            &&& forall|k: int| 0 <= k < p.len() ==> exists|i: int| {
                &&& 0 <= i < cameras.len()
                &&& carries(cameras[i], trigger)
                &&& #[trigger] p[k] == ReadbackAction::CreatePipe {
                    entity: cameras[i].entity,
                    kind: spec_kind_of(trigger),
                    dimensions: cameras[i].dimensions,
                }
            }
            &&& forall|i: int| 0 <= i < cameras.len() && #[trigger] carries(cameras[i], trigger) ==> p.contains(
                ReadbackAction::CreatePipe {
                    entity: cameras[i].entity,
                    kind: spec_kind_of(trigger),
                    dimensions: cameras[i].dimensions,
                },
            )
        }),
    decreases cameras.len(),
{
    if cameras.len() > 0 {
        let prefix = cameras.drop_last();
        lemma_detection_pass(prefix, trigger);
        let c = cameras.last();
        let rest = spec_update_pass(prefix, trigger);
        let create = ReadbackAction::CreatePipe {
            entity: c.entity,
            kind: spec_kind_of(trigger),
            dimensions: c.dimensions,
        };
        let step: Seq<ReadbackAction> = if carries(c, trigger) { seq![create] } else { Seq::empty() };
        assert(carries(c, trigger) ==> spec_on_inserted(c.entity, trigger, Some(c.dimensions)) == seq![create]);
        let p = spec_update_pass(cameras, trigger);
        assert(p == rest + step);
        assert forall|k: int| 0 <= k < p.len() implies exists|i: int| {
            &&& 0 <= i < cameras.len()
            &&& carries(cameras[i], trigger)
            &&& #[trigger] p[k] == ReadbackAction::CreatePipe {
                entity: cameras[i].entity,
                kind: spec_kind_of(trigger),
                dimensions: cameras[i].dimensions,
            }
        } by {
            if k < rest.len() {
                assert(p[k] == rest[k]);
                let i = choose|i: int| {
                    &&& 0 <= i < prefix.len()
                    &&& carries(prefix[i], trigger)
                    &&& #[trigger] rest[k] == ReadbackAction::CreatePipe {
                        entity: prefix[i].entity,
                        kind: spec_kind_of(trigger),
                        dimensions: prefix[i].dimensions,
                    }
                };
                assert(cameras[i] == prefix[i]);
            } else {
                assert(p[k] == create);
                assert(cameras[cameras.len() - 1] == c);
            }
        }
        assert forall|i: int| 0 <= i < cameras.len() && #[trigger] carries(cameras[i], trigger) implies p.contains(
            ReadbackAction::CreatePipe {
                entity: cameras[i].entity,
                kind: spec_kind_of(trigger),
                dimensions: cameras[i].dimensions,
            },
        ) by {
            if i < cameras.len() - 1 {
                assert(prefix[i] == cameras[i]);
                assert(carries(prefix[i], trigger));
                let j = choose|j: int| 0 <= j < rest.len() && rest[j] == ReadbackAction::CreatePipe {
                    entity: cameras[i].entity,
                    kind: spec_kind_of(trigger),
                    dimensions: cameras[i].dimensions,
                };
                assert(p[j] == rest[j]);
            } else {
                assert(cameras[i] == c);
                assert(p[rest.len() as int] == create);
            }
        }
    }
}

/// An update recreates, for every changed camera and whatever its
/// detections, the colour pipe at its current dimensions and points it at its
/// own image, all of these first and in camera order; then only depth pipes of
/// the cameras with depth detection, each of which gets one; then only Sobel
/// pipes of the cameras with edge detection, each of which gets one.
pub proof fn lemma_update_plan_layout(cameras: Seq<ChangedCamera>)
    ensures
        update_plan_layout(cameras, spec_plan_updates(cameras)),
{
    let n: int = cameras.len() as int;
    let p1 = spec_update_pass(cameras, ReadbackTrigger::Camera);
    let p2 = spec_update_pass(cameras, ReadbackTrigger::DepthDetection);
    let p3 = spec_update_pass(cameras, ReadbackTrigger::EdgeDetection);
    let actions = spec_plan_updates(cameras);
    lemma_camera_pass(cameras);
    lemma_detection_pass(cameras, ReadbackTrigger::DepthDetection);
    lemma_detection_pass(cameras, ReadbackTrigger::EdgeDetection);
    assert(actions == p1 + p2 + p3);
    let m: int = 2 * n + p2.len();
    assert(actions.subrange(2 * n, actions.len() as int) == p2 + p3);
    assert forall|i: int| 0 <= i < n implies #[trigger] actions[2 * i] == (ReadbackAction::CreatePipe {
        entity: cameras[i].entity,
        kind: ReadbackKind::Color,
        dimensions: cameras[i].dimensions,
    }) by {
        assert(actions[2 * i] == p1[2 * i]);
    }
    assert forall|i: int| 0 <= i < n implies #[trigger] actions[2 * i + 1] == ReadbackAction::Target(
        CameraTargetingMessage { targeter_entity: cameras[i].entity, target_entity: cameras[i].entity },
    ) by {
        assert(actions[2 * i + 1] == p1[2 * i + 1]);
    }
    assert forall|k: int| 2 * n <= k < actions.len() implies is_depth_pipe_of(cameras, #[trigger] actions[k])
        || is_sobel_pipe_of(cameras, actions[k]) && (k < m ==> is_depth_pipe_of(cameras, actions[k]))
        && (m <= k ==> creates_sobel(actions[k])) by {
        if k < m {
            assert(actions[k] == p2[k - 2 * n]);
            let i = choose|i: int| {
                &&& 0 <= i < cameras.len()
                &&& carries(cameras[i], ReadbackTrigger::DepthDetection)
                &&& #[trigger] p2[k - 2 * n] == ReadbackAction::CreatePipe {
                    entity: cameras[i].entity,
                    kind: spec_kind_of(ReadbackTrigger::DepthDetection),
                    dimensions: cameras[i].dimensions,
                }
            };
            assert(cameras[i].depth_detection);
        } else {
            assert(actions[k] == p3[k - m]);
            let i = choose|i: int| {
                &&& 0 <= i < cameras.len()
                &&& carries(cameras[i], ReadbackTrigger::EdgeDetection)
                &&& #[trigger] p3[k - m] == ReadbackAction::CreatePipe {
                    entity: cameras[i].entity,
                    kind: spec_kind_of(ReadbackTrigger::EdgeDetection),
                    dimensions: cameras[i].dimensions,
                }
            };
            assert(cameras[i].edge_detection);
        }
    }
    assert forall|k1: int, k2: int|
        2 * n <= k1 < k2 < actions.len() && creates_sobel(#[trigger] actions[k1]) implies creates_sobel(
            #[trigger] actions[k2],
        ) by {
        if k1 < m {
            assert(is_depth_pipe_of(cameras, actions[k1]));
        }
        assert(2 * n <= k2 < actions.len());
        assert(is_depth_pipe_of(cameras, actions[k2]) || is_sobel_pipe_of(cameras, actions[k2]));
    }
    assert forall|i: int| 0 <= i < n && #[trigger] cameras[i].depth_detection implies actions.subrange(
        2 * n,
        actions.len() as int,
    ).contains(
        ReadbackAction::CreatePipe {
            entity: cameras[i].entity,
            kind: ReadbackKind::Depth,
            dimensions: cameras[i].dimensions,
        },
    ) by {
        assert(carries(cameras[i], ReadbackTrigger::DepthDetection));
        let x = ReadbackAction::CreatePipe {
            entity: cameras[i].entity,
            kind: ReadbackKind::Depth,
            dimensions: cameras[i].dimensions,
        };
        let j = choose|j: int| 0 <= j < p2.len() && p2[j] == x;
        assert((p2 + p3)[j] == x);
    }
    assert forall|i: int| 0 <= i < n && #[trigger] cameras[i].edge_detection implies actions.subrange(
        2 * n,
        actions.len() as int,
    ).contains(
        ReadbackAction::CreatePipe {
            entity: cameras[i].entity,
            kind: ReadbackKind::Sobel,
            dimensions: cameras[i].dimensions,
        },
    ) by {
        assert(carries(cameras[i], ReadbackTrigger::EdgeDetection));
        let x = ReadbackAction::CreatePipe {
            entity: cameras[i].entity,
            kind: ReadbackKind::Sobel,
            dimensions: cameras[i].dimensions,
        };
        let j = choose|j: int| 0 <= j < p3.len() && p3[j] == x;
        assert((p2 + p3)[p2.len() + j] == x);
    }
}

} // verus!
