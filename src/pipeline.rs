//! The destroy phase of a pipeline pass: components removed since the last
//! pass are torn down, joints first, then fixtures, then bodies, and the
//! native work that follows is handed back in order.
use vstd::prelude::*;

use crate::body::BodyChangeTracker;
use crate::joints::{b2Joint, JointHandle, UsageError};
use crate::registry::{
    joint_bodies_ready, JointEntry, handle_of, RegistryError, touches, without_value, Entity, FixtureTeardown, HandleRegistry, RegistryView,
};

verus! {

/// One piece of native teardown, in the order the caller must perform it.
pub enum NativeDestroy {
    Joint(JointHandle),
    Fixture(FixtureTeardown),
    /// Destroy the body (the engine takes its fixtures and joints with it)
    /// and despawn the entities of its fixtures that live apart from it.
    Body { handle: u64, despawn: Vec<Entity> },
}

/// A teardown step as the contracts see it: the despawned entities as a set.
pub enum DestroyStep {
    Joint(JointHandle),
    Fixture(FixtureTeardown),
    Body(u64, Set<Entity>),
}

pub open spec fn step_of(c: NativeDestroy) -> DestroyStep {
    match c {
        NativeDestroy::Joint(h) => DestroyStep::Joint(h),
        NativeDestroy::Fixture(t) => DestroyStep::Fixture(t),
        NativeDestroy::Body { handle, despawn } => DestroyStep::Body(handle, despawn@.to_set()),
    }
}

pub open spec fn steps_of(cs: Seq<NativeDestroy>) -> Seq<DestroyStep> {
    cs.map_values(|c: NativeDestroy| step_of(c))
}

/// The registry after the joints `js` were removed, one after the other.
pub open spec fn joints_removed(v: RegistryView, js: Seq<Entity>) -> RegistryView
    decreases js.len(),
{
    if js.len() == 0 {
        v
    } else {
        joints_removed(v, js.drop_last()).without_joint(js.last())
    }
}

pub open spec fn joint_steps(v: RegistryView, js: Seq<Entity>) -> Seq<DestroyStep>
    decreases js.len(),
{
    if js.len() == 0 {
        Seq::empty()
    } else {
        let w = joints_removed(v, js.drop_last());
        joint_steps(v, js.drop_last()) + if w.joints.contains_key(js.last()) {
            seq![DestroyStep::Joint(w.joints[js.last()].handle)]
        } else {
            Seq::empty()
        }
    }
}

pub open spec fn fixtures_removed(v: RegistryView, fs: Seq<Entity>) -> RegistryView
    decreases fs.len(),
{
    if fs.len() == 0 {
        v
    } else {
        fixtures_removed(v, fs.drop_last()).without_fixture(fs.last())
    }
}

pub open spec fn fixture_steps(v: RegistryView, fs: Seq<Entity>) -> Seq<DestroyStep>
    decreases fs.len(),
{
    if fs.len() == 0 {
        Seq::empty()
    } else {
        let w = fixtures_removed(v, fs.drop_last());
        let f = fs.last();
        fixture_steps(v, fs.drop_last()) + if w.fixtures.contains_key(f) {
            seq![
                DestroyStep::Fixture(
                    FixtureTeardown {
                        handle: w.fixtures[f].handle,
                        body_handle: w.bodies[w.fixtures[f].body],
                    },
                ),
            ]
        } else {
            Seq::empty()
        }
    }
}

pub open spec fn bodies_removed(v: RegistryView, bs: Seq<Entity>) -> RegistryView
    decreases bs.len(),
{
    if bs.len() == 0 {
        v
    } else {
        bodies_removed(v, bs.drop_last()).without_body(bs.last())
    }
}

/// The fixture entities of `body` other than the body's own entity.
pub open spec fn detached_fixtures(v: RegistryView, body: Entity) -> Set<Entity> {
    Set::new(|f: Entity| v.fixtures.contains_key(f) && v.fixtures[f].body == body && f != body)
}

pub open spec fn body_steps(v: RegistryView, bs: Seq<Entity>) -> Seq<DestroyStep>
    decreases bs.len(),
{
    if bs.len() == 0 {
        Seq::empty()
    } else {
        let w = bodies_removed(v, bs.drop_last());
        let b = bs.last();
        body_steps(v, bs.drop_last()) + if w.bodies.contains_key(b) {
            seq![DestroyStep::Body(w.bodies[b], detached_fixtures(w, b))]
        } else {
            Seq::empty()
        }
    }
}

/// The registry after a destroy phase over the removed joints, fixtures and
/// bodies.
pub open spec fn after_destroy(
    v: RegistryView,
    js: Seq<Entity>,
    fs: Seq<Entity>,
    bs: Seq<Entity>,
) -> RegistryView {
    bodies_removed(fixtures_removed(joints_removed(v, js), fs), bs)
}

/// The native teardown of a destroy phase, in order.
pub open spec fn destroy_steps(
    v: RegistryView,
    js: Seq<Entity>,
    fs: Seq<Entity>,
    bs: Seq<Entity>,
) -> Seq<DestroyStep> {
    let v1 = joints_removed(v, js);
    let v2 = fixtures_removed(v1, fs);
    joint_steps(v, js) + fixture_steps(v1, fs) + body_steps(v2, bs)
}

proof fn lemma_push_step(cs: Seq<NativeDestroy>, c: NativeDestroy)
    ensures
        steps_of(cs.push(c)) == steps_of(cs).push(step_of(c)),
{
    assert(steps_of(cs.push(c)) =~= steps_of(cs).push(step_of(c)));
}

/// Tears down what was removed since the last pass: the joints `joints`,
/// then the fixtures `fixtures`, then the bodies `bodies`, each body with
/// everything that referenced it. Entities with nothing registered are
/// skipped, as a fixture that went with its body is. Destroyed bodies are
/// also dropped from the change tracker. Returns the native work to do, in
/// order.
pub fn destroy_removed(
    registry: &mut HandleRegistry,
    tracker: &mut BodyChangeTracker,
    joints: &Vec<Entity>,
    fixtures: &Vec<Entity>,
    bodies: &Vec<Entity>,
) -> (r: Vec<NativeDestroy>)
    requires
        old(registry).wf(),
    ensures
        final(registry).wf(),
        final(registry)@ == after_destroy(old(registry)@, joints@, fixtures@, bodies@),
        steps_of(r@) == destroy_steps(old(registry)@, joints@, fixtures@, bodies@),
        final(tracker)@ == old(tracker)@.remove_keys(bodies@.to_set()),
{
    let ghost v0 = registry@;
    let mut out: Vec<NativeDestroy> = Vec::new();
    let mut i: usize = 0;
    while i < joints.len()
        invariant
            i <= joints.len(),
            registry.wf(),
            registry@ == joints_removed(v0, joints@.subrange(0, i as int)),
            steps_of(out@) == joint_steps(v0, joints@.subrange(0, i as int)),
            tracker@ == old(tracker)@,
        decreases joints.len() - i,
    {
        let j = joints[i];
        let ghost w = registry@;
        proof {
            let p = joints@.subrange(0, i + 1);
            assert(p.drop_last() =~= joints@.subrange(0, i as int));
            assert(p.last() == j);
        }
        match registry.destroy_joint(j) {
            Some(h) => {
                proof {
                    lemma_push_step(out@, NativeDestroy::Joint(h));
                }
                out.push(NativeDestroy::Joint(h));
            },
            None => {
                assert(w.without_joint(j).joints =~= w.joints);
            },
        }
        i += 1;
    }
    assert(joints@.subrange(0, joints@.len() as int) =~= joints@);
    let ghost v1 = registry@;
    let ghost s1 = out@;
    let mut k: usize = 0;
    while k < fixtures.len()
        invariant
            k <= fixtures.len(),
            registry.wf(),
            v1 == joints_removed(v0, joints@),
            registry@ == fixtures_removed(v1, fixtures@.subrange(0, k as int)),
            steps_of(out@) == steps_of(s1) + fixture_steps(v1, fixtures@.subrange(0, k as int)),
            steps_of(s1) == joint_steps(v0, joints@),
            tracker@ == old(tracker)@,
        decreases fixtures.len() - k,
    {
        let f = fixtures[k];
        let ghost w = registry@;
        let ghost o = out@;
        proof {
            let p = fixtures@.subrange(0, k + 1);
            assert(p.drop_last() =~= fixtures@.subrange(0, k as int));
            assert(p.last() == f);
        }
        match registry.destroy_fixture(f) {
            Some(t) => {
                proof {
                    lemma_push_step(out@, NativeDestroy::Fixture(t));
                }
                out.push(NativeDestroy::Fixture(t));
                assert(steps_of(out@) =~= steps_of(s1) + fixture_steps(
                    v1,
                    fixtures@.subrange(0, k + 1),
                ));
            },
            None => {
                assert(w.without_fixture(f).fixtures =~= w.fixtures);
                assert(steps_of(out@) =~= steps_of(s1) + fixture_steps(
                    v1,
                    fixtures@.subrange(0, k + 1),
                ));
            },
        }
        k += 1;
    }
    assert(fixtures@.subrange(0, fixtures@.len() as int) =~= fixtures@);
    let ghost v2 = registry@;
    let ghost s2 = out@;
    let ghost t0 = tracker@;
    let mut n: usize = 0;
    while n < bodies.len()
        invariant
            n <= bodies.len(),
            registry.wf(),
            v1 == joints_removed(v0, joints@),
            v2 == fixtures_removed(v1, fixtures@),
            registry@ == bodies_removed(v2, bodies@.subrange(0, n as int)),
            steps_of(out@) == steps_of(s2) + body_steps(v2, bodies@.subrange(0, n as int)),
            steps_of(s2) == joint_steps(v0, joints@) + fixture_steps(v1, fixtures@),
            t0 == old(tracker)@,
            tracker@ == t0.remove_keys(bodies@.subrange(0, n as int).to_set()),
        decreases bodies.len() - n,
    {
        let b = bodies[n];
        let ghost w = registry@;
        proof {
            registry.lemma_wf_view();
            let p = bodies@.subrange(0, n + 1);
            assert(p.drop_last() =~= bodies@.subrange(0, n as int));
            assert(p.last() == b);
            assert(p =~= bodies@.subrange(0, n as int).push(b));
        }
        match registry.destroy_body(b) {
            Some(t) => {
                let despawn = without_value(&t.fixtures, b);
                let c = NativeDestroy::Body { handle: t.handle, despawn };
                proof {
                    assert(despawn@.to_set() =~= detached_fixtures(w, b));
                    lemma_push_step(out@, c);
                }
                out.push(c);
                assert(steps_of(out@) =~= steps_of(s2) + body_steps(v2, bodies@.subrange(0, n + 1)));
            },
            None => {
                assert(w.without_body(b).bodies =~= w.bodies);
                assert(w.without_body(b).fixtures =~= w.fixtures);
                assert(w.without_body(b).joints =~= w.joints);
                assert(steps_of(out@) =~= steps_of(s2) + body_steps(v2, bodies@.subrange(0, n + 1)));
            },
        }
        tracker.forget(b);
        proof {
            assert(tracker@ =~= t0.remove_keys(bodies@.subrange(0, n + 1).to_set()));
        }
        n += 1;
    }
    proof {
        assert(joints@.subrange(0, joints@.len() as int) =~= joints@);
        assert(fixtures@.subrange(0, fixtures@.len() as int) =~= fixtures@);
        assert(bodies@.subrange(0, bodies@.len() as int) =~= bodies@);
        assert(steps_of(out@) =~= destroy_steps(v0, joints@, fixtures@, bodies@));
    }
    out
}

/// A body the native engine has just created for `entity`, with the change
/// generation of the entity's body record at that moment.
#[derive(Clone, Copy, Debug, PartialEq, Eq, Structural)]
pub struct CreatedBody {
    pub entity: Entity,
    pub handle: u64,
    pub generation: u64,
}

/// No entity is listed twice.
pub open spec fn distinct_bodies(cs: Seq<CreatedBody>) -> bool {
    forall|i: int, j: int| 0 <= i < j < cs.len() ==> cs[i].entity != cs[j].entity
}

/// No listed entity has a body yet.
pub open spec fn bodies_fresh(v: RegistryView, cs: Seq<CreatedBody>) -> bool {
    forall|i: int| 0 <= i < cs.len() ==> !v.bodies.contains_key(#[trigger] cs[i].entity)
}

/// Two maps agree at `e`.
pub open spec fn same_at(a: Map<Entity, u64>, b: Map<Entity, u64>, e: Entity) -> bool {
    a.contains_key(e) == b.contains_key(e) && (a.contains_key(e) ==> a[e] == b[e])
}

pub open spec fn listed(cs: Seq<CreatedBody>, e: Entity) -> bool {
    exists|i: int| 0 <= i < cs.len() && #[trigger] cs[i].entity == e
}

/// Registers the bodies created natively in this pass, all or none, and
/// records each one's generation as written by the pipeline. A listed
/// entity that already has a body, or is listed twice, is refused.
pub fn register_created_bodies(
    registry: &mut HandleRegistry,
    tracker: &mut BodyChangeTracker,
    created: &Vec<CreatedBody>,
) -> (r: Result<(), RegistryError>)
    requires
        old(registry).wf(),
    ensures
        final(registry).wf(),
        r is Ok <==> bodies_fresh(old(registry)@, created@) && distinct_bodies(created@),
        r is Err ==> final(registry)@ == old(registry)@ && final(tracker)@ == old(tracker)@,
        r matches Err(e) ==> exists|i: int|
            0 <= i < created@.len() && e == RegistryError::AlreadyRegistered(
                #[trigger] created@[i].entity,
            ),
        r is Ok ==> {
            &&& forall|i: int|
                0 <= i < created@.len() ==> handle_of(final(registry)@.bodies, #[trigger] created@[i].entity)
                    == Some(created@[i].handle) && final(tracker)@.contains_key(created@[i].entity)
                    && final(tracker)@[created@[i].entity] == created@[i].generation
            &&& forall|e: Entity|
                !listed(created@, e) ==> handle_of(final(registry)@.bodies, e) == handle_of(
                    old(registry)@.bodies,
                    e,
                ) && same_at(final(tracker)@, old(tracker)@, e)
            &&& final(registry)@.fixtures == old(registry)@.fixtures
            &&& final(registry)@.joints == old(registry)@.joints
            &&& final(registry)@.particle_systems == old(registry)@.particle_systems
        },
{
    let mut i: usize = 0;
    while i < created.len()
        invariant
            i <= created.len(),
            registry.wf(),
            registry@ == old(registry)@,
            tracker@ == old(tracker)@,
            bodies_fresh(registry@, created@.subrange(0, i as int)),
            distinct_bodies(created@.subrange(0, i as int)),
        decreases created.len() - i,
    {
        let e = created[i].entity;
        if registry.body(e).is_some() {
            assert(!bodies_fresh(registry@, created@)) by {
                assert(registry@.bodies.contains_key(created@[i as int].entity));
            }
            return Err(RegistryError::AlreadyRegistered(e));
        }
        let mut k: usize = 0;
        while k < i
            invariant
                k <= i < created.len(),
                registry.wf(),
                registry@ == old(registry)@,
                tracker@ == old(tracker)@,
                e == created@[i as int].entity,
                forall|m: int| 0 <= m < k ==> created@[m].entity != e,
            decreases i - k,
        {
            if created[k].entity == e {
                assert(!distinct_bodies(created@) && created@[k as int].entity == e);
                return Err(RegistryError::AlreadyRegistered(e));
            }
            k += 1;
        }
        proof {
            let p = created@.subrange(0, i + 1);
            assert forall|m: int| 0 <= m < p.len() implies !registry@.bodies.contains_key(
                #[trigger] p[m].entity,
            ) by {
                if m < i {
                    assert(p[m] == created@.subrange(0, i as int)[m]);
                }
            }
            assert forall|a: int, b: int| 0 <= a < b < p.len() implies p[a].entity != p[b].entity by {
                if b < i {
                    assert(p[a] == created@.subrange(0, i as int)[a]);
                    assert(p[b] == created@.subrange(0, i as int)[b]);
                }
            }
        }
        i += 1;
    }
    proof {
        assert(created@.subrange(0, created@.len() as int) =~= created@);
    }
    let ghost v0 = registry@;
    let ghost t0 = tracker@;
    let mut n: usize = 0;
    while n < created.len()
        invariant
            n <= created.len(),
            registry.wf(),
            bodies_fresh(v0, created@),
            distinct_bodies(created@),
            registry@.fixtures == v0.fixtures,
            registry@.joints == v0.joints,
            registry@.particle_systems == v0.particle_systems,
            forall|m: int|
                0 <= m < n ==> handle_of(registry@.bodies, #[trigger] created@[m].entity) == Some(
                    created@[m].handle,
                ) && tracker@.contains_key(created@[m].entity) && tracker@[created@[m].entity]
                    == created@[m].generation,
            forall|m: int| n <= m < created.len() ==> !registry@.bodies.contains_key(#[trigger] created@[m].entity),
            forall|e: Entity|
                (forall|m: int| 0 <= m < n ==> #[trigger] created@[m].entity != e) ==> handle_of(
                    registry@.bodies,
                    e,
                ) == handle_of(v0.bodies, e) && same_at(tracker@, t0, e),
        decreases created.len() - n,
    {
        let c = created[n];
        let _ = registry.register_body(c.entity, c.handle);
        tracker.record_sync(c.entity, c.generation);
        proof {
            assert forall|m: int| n < m < created.len() implies !registry@.bodies.contains_key(
                #[trigger] created@[m].entity,
            ) by {
                assert(created@[m].entity != created@[n as int].entity);
            }
        }
        n += 1;
    }
    proof {
        assert forall|e: Entity| !listed(created@, e) implies handle_of(registry@.bodies, e)
            == handle_of(v0.bodies, e) && same_at(tracker@, t0, e) by {
            assert forall|m: int| 0 <= m < created@.len() implies #[trigger] created@[m].entity != e by {
                if created@[m].entity == e {
                    assert(listed(created@, e));
                }
            }
        }
    }
    Ok(())
}

/// The native bodies of every joint added in this pass, in order. Every
/// joint needs both of its bodies to exist natively already; the first one
/// that does not is a usage error.
pub fn joint_creation_plan(registry: &HandleRegistry, joints: &Vec<b2Joint>) -> (r: Result<
    Vec<(u64, u64)>,
    UsageError,
>)
    ensures
        r is Ok <==> forall|i: int|
            0 <= i < joints@.len() ==> #[trigger] joint_bodies_ready(registry@, joints@[i]) is Ok,
        r matches Ok(hs) ==> hs@.len() == joints@.len() && forall|i: int|
            0 <= i < joints@.len() ==> Ok::<(u64, u64), UsageError>(#[trigger] hs@[i])
                == joint_bodies_ready(registry@, joints@[i]),
        r matches Err(e) ==> exists|i: int|
            0 <= i < joints@.len() && #[trigger] joint_bodies_ready(registry@, joints@[i]) == Err::<
                (u64, u64),
                UsageError,
            >(e),
{
    let mut out: Vec<(u64, u64)> = Vec::new();
    let mut i: usize = 0;
    while i < joints.len()
        invariant
            i <= joints.len(),
            out@.len() == i,
            forall|k: int|
                0 <= k < i ==> Ok::<(u64, u64), UsageError>(#[trigger] out@[k]) == joint_bodies_ready(
                    registry@,
                    joints@[k],
                ),
        decreases joints.len() - i,
    {
        match registry.joint_body_handles(&joints[i]) {
            Ok(h) => {
                out.push(h);
            },
            Err(e) => {
                assert(joint_bodies_ready(registry@, joints@[i as int]) == Err::<(u64, u64), UsageError>(e));
                return Err(e);
            },
        }
        i += 1;
    }
    assert forall|k: int| 0 <= k < joints@.len() implies #[trigger] joint_bodies_ready(
        registry@,
        joints@[k],
    ) is Ok by {
        assert(Ok::<(u64, u64), UsageError>(out@[k]) == joint_bodies_ready(registry@, joints@[k]));
    }
    Ok(out)
}

/// A joint the native engine has just created for `entity`.
#[derive(Clone, Copy, Debug, PartialEq, Eq, Structural)]
pub struct CreatedJoint {
    pub entity: Entity,
    pub body_a: Entity,
    pub body_b: Entity,
    pub handle: JointHandle,
}

/// None of the first `n` listed joints is for `e`.
pub open spec fn unlisted_before(cs: Seq<CreatedJoint>, n: int, e: Entity) -> bool {
    forall|m: int| 0 <= m < n ==> #[trigger] cs[m].entity != e
}

/// The two registries hold the same joint, or none, for `e`.
pub open spec fn same_joint_at(a: RegistryView, b: RegistryView, e: Entity) -> bool {
    a.joints.contains_key(e) == b.joints.contains_key(e) && (b.joints.contains_key(e)
        ==> a.joints[e] == b.joints[e])
}

pub open spec fn entry_of(c: CreatedJoint) -> JointEntry {
    JointEntry { handle: c.handle, body_a: c.body_a, body_b: c.body_b }
}

/// Every listed joint is new, listed once, and connects registered bodies.
pub open spec fn joints_admissible(v: RegistryView, cs: Seq<CreatedJoint>) -> bool {
    &&& forall|i: int| 0 <= i < cs.len() ==> !v.joints.contains_key(#[trigger] cs[i].entity)
    &&& forall|i: int, j: int| 0 <= i < j < cs.len() ==> cs[i].entity != cs[j].entity
    &&& forall|i: int|
        0 <= i < cs.len() ==> v.bodies.contains_key(#[trigger] cs[i].body_a) && v.bodies.contains_key(
            cs[i].body_b,
        )
}

/// Registers the joints created natively in this pass, all or none.
pub fn register_created_joints(registry: &mut HandleRegistry, created: &Vec<CreatedJoint>) -> (r:
    Result<(), RegistryError>)
    requires
        old(registry).wf(),
    ensures
        final(registry).wf(),
        r is Ok <==> joints_admissible(old(registry)@, created@),
        r is Err ==> final(registry)@ == old(registry)@,
        r is Ok ==> {
            &&& forall|i: int|
                0 <= i < created@.len() ==> final(registry)@.joints.contains_key(
                    #[trigger] created@[i].entity,
                ) && final(registry)@.joints[created@[i].entity] == entry_of(created@[i])
            &&& forall|e: Entity| #[trigger]
                unlisted_before(created@, created@.len() as int, e) ==> same_joint_at(
                    final(registry)@,
                    old(registry)@,
                    e,
                )
            &&& final(registry)@.bodies == old(registry)@.bodies
            &&& final(registry)@.fixtures == old(registry)@.fixtures
            &&& final(registry)@.particle_systems == old(registry)@.particle_systems
        },
{
    let mut i: usize = 0;
    while i < created.len()
        invariant
            i <= created.len(),
            registry.wf(),
            registry@ == old(registry)@,
            joints_admissible(registry@, created@.subrange(0, i as int)),
        decreases created.len() - i,
    {
        let c = created[i];
        if registry.joint(c.entity).is_some() {
            assert(!joints_admissible(registry@, created@)) by {
                assert(registry@.joints.contains_key(created@[i as int].entity));
            }
            return Err(RegistryError::AlreadyRegistered(c.entity));
        }
        if registry.body(c.body_a).is_none() {
            assert(!joints_admissible(registry@, created@)) by {
                assert(!registry@.bodies.contains_key(created@[i as int].body_a));
            }
            return Err(RegistryError::MissingBody(c.body_a));
        }
        if registry.body(c.body_b).is_none() {
            assert(!joints_admissible(registry@, created@)) by {
                assert(!registry@.bodies.contains_key(created@[i as int].body_b));
            }
            return Err(RegistryError::MissingBody(c.body_b));
        }
        let mut k: usize = 0;
        while k < i
            invariant
                k <= i < created.len(),
                registry.wf(),
                registry@ == old(registry)@,
                c == created@[i as int],
                forall|m: int| 0 <= m < k ==> created@[m].entity != c.entity,
            decreases i - k,
        {
            if created[k].entity == c.entity {
                assert(!joints_admissible(registry@, created@)) by {
                    assert(created@[k as int].entity == created@[i as int].entity);
                }
                return Err(RegistryError::AlreadyRegistered(c.entity));
            }
            k += 1;
        }
        proof {
            let p = created@.subrange(0, i + 1);
            let q = created@.subrange(0, i as int);
            assert forall|m: int| 0 <= m < p.len() implies !registry@.joints.contains_key(
                #[trigger] p[m].entity,
            ) by {
                if m < i {
                    assert(p[m] == q[m]);
                }
            }
            assert forall|a: int, b: int| 0 <= a < b < p.len() implies p[a].entity != p[b].entity by {
                assert(p[a] == created@[a]);
                assert(p[b] == created@[b]);
                if b < i {
                    assert(q[a] == created@[a]);
                    assert(q[b] == created@[b]);
                }
            }
            assert forall|m: int| 0 <= m < p.len() implies registry@.bodies.contains_key(
                #[trigger] p[m].body_a,
            ) && registry@.bodies.contains_key(p[m].body_b) by {
                if m < i {
                    assert(p[m] == q[m]);
                }
            }
        }
        i += 1;
    }
    proof {
        assert(created@.subrange(0, created@.len() as int) =~= created@);
    }
    let ghost v0 = registry@;
    let mut n: usize = 0;
    while n < created.len()
        invariant
            n <= created.len(),
            registry.wf(),
            joints_admissible(v0, created@),
            registry@.bodies == v0.bodies,
            registry@.fixtures == v0.fixtures,
            registry@.particle_systems == v0.particle_systems,
            forall|m: int|
                0 <= m < n ==> registry@.joints.contains_key(#[trigger] created@[m].entity)
                    && registry@.joints[created@[m].entity] == entry_of(created@[m]),
            forall|m: int| n <= m < created.len() ==> !registry@.joints.contains_key(#[trigger] created@[m].entity),
            forall|e: Entity| #[trigger]
                unlisted_before(created@, n as int, e) ==> registry@.joints.contains_key(e)
                    == v0.joints.contains_key(e) && (v0.joints.contains_key(e) ==> registry@.joints[e]
                    == v0.joints[e]),
        decreases created.len() - n,
    {
        let c = created[n];
        proof {
            assert(v0.bodies.contains_key(created@[n as int].body_a));
        }
        let ghost before = registry@;
        proof {
            assert(!before.joints.contains_key(c.entity));
            assert(before.bodies.contains_key(c.body_a));
            assert(before.bodies.contains_key(c.body_b));
        }
        let res = registry.register_joint(c.entity, c.body_a, c.body_b, c.handle);
        proof {
            assert(res is Ok);
            assert(registry@.joints == before.joints.insert(c.entity, entry_of(c)));
            assert forall|e: Entity| #[trigger]
                unlisted_before(created@, n + 1, e) implies registry@.joints.contains_key(e)
                    == v0.joints.contains_key(e) && (v0.joints.contains_key(e) ==> registry@.joints[e]
                    == v0.joints[e]) by {
                assert(created@[n as int].entity != e);
                assert(unlisted_before(created@, n as int, e));
            }
            assert forall|m: int| n < m < created.len() implies !registry@.joints.contains_key(
                #[trigger] created@[m].entity,
            ) by {
                assert(created@[m].entity != created@[n as int].entity);
            }
        }
        n += 1;
    }
    proof {
        assert(v0 == old(registry)@);
        assert(forall|i: int|
            0 <= i < created@.len() ==> registry@.joints.contains_key(#[trigger] created@[i].entity)
                && registry@.joints[created@[i].entity] == entry_of(created@[i]));
    }
    Ok(())
}

/// After a destroy phase, none of the removed bodies has a handle, no
/// fixture or joint still references one of them, and the registry is
/// consistent.
pub proof fn lemma_destroy_phase_removes_bodies(
    v: RegistryView,
    js: Seq<Entity>,
    fs: Seq<Entity>,
    bs: Seq<Entity>,
)
    requires
        v.wf(),
    ensures
        after_destroy(v, js, fs, bs).wf(),
        forall|b: Entity| #[trigger]
            bs.contains(b) ==> {
                let w = after_destroy(v, js, fs, bs);
                &&& !w.bodies.contains_key(b)
                &&& forall|f: Entity| #[trigger]
                    w.fixtures.contains_key(f) ==> w.fixtures[f].body != b
                &&& forall|j: Entity| #[trigger] w.joints.contains_key(j) ==> !touches(w.joints[j], b)
            },
{
    lemma_joints_removed_wf(v, js);
    lemma_fixtures_removed_wf(joints_removed(v, js), fs);
    lemma_bodies_removed(fixtures_removed(joints_removed(v, js), fs), bs);
}

proof fn lemma_joints_removed_wf(v: RegistryView, js: Seq<Entity>)
    requires
        v.wf(),
    ensures
        joints_removed(v, js).wf(),
    decreases js.len(),
{
    if js.len() > 0 {
        lemma_joints_removed_wf(v, js.drop_last());
    }
}

proof fn lemma_fixtures_removed_wf(v: RegistryView, fs: Seq<Entity>)
    requires
        v.wf(),
    ensures
        fixtures_removed(v, fs).wf(),
    decreases fs.len(),
{
    if fs.len() > 0 {
        lemma_fixtures_removed_wf(v, fs.drop_last());
    }
}

proof fn lemma_bodies_removed(v: RegistryView, bs: Seq<Entity>)
    requires
        v.wf(),
    ensures
        bodies_removed(v, bs).wf(),
        forall|b: Entity| #[trigger]
            bs.contains(b) ==> {
                let w = bodies_removed(v, bs);
                &&& !w.bodies.contains_key(b)
                &&& forall|f: Entity| #[trigger]
                    w.fixtures.contains_key(f) ==> w.fixtures[f].body != b
                &&& forall|j: Entity| #[trigger] w.joints.contains_key(j) ==> !touches(w.joints[j], b)
            },
    decreases bs.len(),
{
    if bs.len() > 0 {
        let p = bs.drop_last();
        lemma_bodies_removed(v, p);
        let u = bodies_removed(v, p);
        let w = bodies_removed(v, bs);
        assert forall|b: Entity| #[trigger] bs.contains(b) implies {
            &&& !w.bodies.contains_key(b)
            &&& forall|f: Entity| #[trigger] w.fixtures.contains_key(f) ==> w.fixtures[f].body != b
            &&& forall|j: Entity| #[trigger] w.joints.contains_key(j) ==> !touches(w.joints[j], b)
        } by {
            if b != bs.last() {
                let k = choose|k: int| 0 <= k < bs.len() && bs[k] == b;
                assert(p[k] == b);
                assert(p.contains(b));
            }
        }
    }
}

} // verus!
