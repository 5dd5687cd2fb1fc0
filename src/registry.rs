//! The handle registry: which native object stands for which entity.
//!
//! Bodies, fixtures, joints and particle systems each have a map from entity
//! to native handle. Two adjacency maps, body to fixtures and body to joints,
//! are kept in step with them so that destroying a body can find everything
//! that the native engine tears down along with it.
use vstd::prelude::*;

use std::collections::HashMap;

use crate::seqs::{contains_u64, lemma_push_no_duplicates};
use crate::joints::{address_for_kind, b2Joint, b2JointType, JointHandle, UsageError};

verus! {

broadcast use vstd::std_specs::hash::group_hash_axioms, vstd::seq_lib::group_seq_properties;

/// An entity, by its 64-bit identifier.
pub type Entity = u64;

/// A registered fixture: its native handle and the body entity that owns it.
#[derive(Clone, Copy, Debug, PartialEq, Eq, Structural)]
pub struct FixtureEntry {
    pub handle: u64,
    pub body: Entity,
}

/// A registered joint: its kind-tagged native handle and its two bodies.
#[derive(Clone, Copy, Debug, PartialEq, Eq, Structural)]
pub struct JointEntry {
    pub handle: JointHandle,
    pub body_a: Entity,
    pub body_b: Entity,
}

#[derive(Clone, Copy, Debug, PartialEq, Eq, Structural)]
pub enum RegistryError {
    /// The entity already has a native object of this sort.
    AlreadyRegistered(Entity),
    /// The object would hang off a body that has no native handle.
    MissingBody(Entity),
}

/// What was torn down with a body: its handle and the fixtures and joints
/// that referenced it, each listed once.
pub struct BodyTeardown {
    pub handle: u64,
    pub fixtures: Vec<Entity>,
    pub joints: Vec<Entity>,
}

/// What a caller needs to destroy a fixture natively.
#[derive(Clone, Copy, Debug, PartialEq, Eq, Structural)]
pub struct FixtureTeardown {
    pub handle: u64,
    pub body_handle: u64,
}

/// The registry as maps from entity to what is registered for it.
pub struct RegistryView {
    pub bodies: Map<Entity, u64>,
    pub fixtures: Map<Entity, FixtureEntry>,
    pub joints: Map<Entity, JointEntry>,
    pub particle_systems: Map<Entity, u64>,
}

pub open spec fn handle_of(m: Map<Entity, u64>, e: Entity) -> Option<u64> {
    if m.contains_key(e) {
        Some(m[e])
    } else {
        None
    }
}

pub open spec fn touches(j: JointEntry, body: Entity) -> bool {
    j.body_a == body || j.body_b == body
}

impl RegistryView {
    pub open spec fn empty() -> RegistryView {
        RegistryView {
            bodies: Map::empty(),
            fixtures: Map::empty(),
            joints: Map::empty(),
            particle_systems: Map::empty(),
        }
    }

    /// Every fixture and every joint resolves to registered bodies.
    pub open spec fn wf(self) -> bool {
        &&& forall|f: Entity| #[trigger]
            self.fixtures.contains_key(f) ==> self.bodies.contains_key(self.fixtures[f].body)
        &&& forall|j: Entity| #[trigger]
            self.joints.contains_key(j) ==> {
                &&& self.bodies.contains_key(self.joints[j].body_a)
                &&& self.bodies.contains_key(self.joints[j].body_b)
            }
    }

    pub open spec fn with_body(self, e: Entity, h: u64) -> RegistryView {
        RegistryView {
            bodies: self.bodies.insert(e, h),
            fixtures: self.fixtures,
            joints: self.joints,
            particle_systems: self.particle_systems,
        }
    }

    /// The body is gone, and with it every fixture and joint that referenced it.
    pub open spec fn without_body(self, e: Entity) -> RegistryView {
        RegistryView {
            bodies: self.bodies.remove(e),
            fixtures: self.fixtures.restrict(
                Set::new(|f: Entity| self.fixtures.contains_key(f) && self.fixtures[f].body != e),
            ),
            joints: self.joints.restrict(
                Set::new(|j: Entity| self.joints.contains_key(j) && !touches(self.joints[j], e)),
            ),
            particle_systems: self.particle_systems,
        }
    }

    pub open spec fn with_fixture(self, f: Entity, body: Entity, h: u64) -> RegistryView {
        RegistryView {
            bodies: self.bodies,
            fixtures: self.fixtures.insert(f, FixtureEntry { handle: h, body }),
            joints: self.joints,
            particle_systems: self.particle_systems,
        }
    }

    pub open spec fn without_fixture(self, f: Entity) -> RegistryView {
        RegistryView {
            bodies: self.bodies,
            fixtures: self.fixtures.remove(f),
            joints: self.joints,
            particle_systems: self.particle_systems,
        }
    }

    pub open spec fn with_joint(self, j: Entity, entry: JointEntry) -> RegistryView {
        RegistryView {
            bodies: self.bodies,
            fixtures: self.fixtures,
            joints: self.joints.insert(j, entry),
            particle_systems: self.particle_systems,
        }
    }

    pub open spec fn without_joint(self, j: Entity) -> RegistryView {
        RegistryView {
            bodies: self.bodies,
            fixtures: self.fixtures,
            joints: self.joints.remove(j),
            particle_systems: self.particle_systems,
        }
    }

    pub open spec fn with_particle_system(self, e: Entity, h: u64) -> RegistryView {
        RegistryView {
            bodies: self.bodies,
            fixtures: self.fixtures,
            joints: self.joints,
            particle_systems: self.particle_systems.insert(e, h),
        }
    }
}

/// The native bodies of a joint's two bodies, or the first one missing.
pub open spec fn joint_bodies_ready(v: RegistryView, joint: b2Joint) -> Result<(u64, u64), UsageError> {
    if !v.bodies.contains_key(joint.body_a) {
        Err(UsageError::MissingBody(joint.body_a))
    } else if !v.bodies.contains_key(joint.body_b) {
        Err(UsageError::MissingBody(joint.body_b))
    } else {
        Ok((v.bodies[joint.body_a], v.bodies[joint.body_b]))
    }
}

/// Once a body is registered for an entity, looking the entity up yields
/// that body's handle.
pub proof fn lemma_registered_body_is_found(v: RegistryView, e: Entity, h: u64)
    requires
        v.wf(),
        !v.bodies.contains_key(e),
    ensures
        v.with_body(e, h).wf(),
        handle_of(v.with_body(e, h).bodies, e) == Some(h),
{
}

/// Removing a body leaves no handle for it, takes every fixture and joint
/// that referenced it, keeps everything else, and keeps the registry
/// consistent.
pub proof fn lemma_body_removal_cascades(v: RegistryView, e: Entity)
    requires
        v.wf(),
    ensures
        v.without_body(e).wf(),
        handle_of(v.without_body(e).bodies, e) is None,
        forall|f: Entity| #[trigger]
            v.without_body(e).fixtures.contains_key(f) <==> (v.fixtures.contains_key(f)
                && v.fixtures[f].body != e),
        forall|j: Entity| #[trigger]
            v.without_body(e).joints.contains_key(j) <==> (v.joints.contains_key(j) && !touches(
                v.joints[j],
                e,
            )),
        forall|b: Entity| b != e ==> handle_of(v.without_body(e).bodies, b) == handle_of(v.bodies, b),
{
}

/// A joint can be built exactly when both of its bodies have native
/// handles; once registered, its handle is found again, and pushing
/// parameters through it succeeds for its own kind and for no other.
pub proof fn lemma_joint_creation(v: RegistryView, j: Entity, joint: b2Joint, handle: JointHandle)
    requires
        v.wf(),
        !v.joints.contains_key(j),
        handle.kind == joint.joint_type,
    ensures
        joint_bodies_ready(v, joint) is Err <==> (!v.bodies.contains_key(joint.body_a)
            || !v.bodies.contains_key(joint.body_b)),
        joint_bodies_ready(v, joint) is Ok ==> {
            let w = v.with_joint(j, JointEntry { handle, body_a: joint.body_a, body_b: joint.body_b });
            &&& w.wf()
            &&& w.joints[j].handle == handle
            &&& address_for_kind(w.joints[j].handle, joint.joint_type) == Ok::<u64, UsageError>(
                handle.address,
            )
            &&& forall|k: b2JointType|
                k != joint.joint_type ==> #[trigger] address_for_kind(w.joints[j].handle, k) is Err
        },
{
}

/// `member` is listed under `owner` in an adjacency map.
pub open spec fn adj_has(m: Map<u64, Vec<u64>>, owner: u64, member: u64) -> bool {
    m.contains_key(owner) && m[owner]@.contains(member)
}

/// The values of `v` other than `x`, in order.
pub(crate) fn without_value(v: &Vec<u64>, x: u64) -> (r: Vec<u64>)
    ensures
        forall|y: u64| #[trigger] r@.contains(y) <==> (v@.contains(y) && y != x),
{
    let mut r: Vec<u64> = Vec::new();
    let mut i: usize = 0;
    while i < v.len()
        invariant
            i <= v.len(),
            forall|y: u64| #[trigger]
                r@.contains(y) <==> (v@.subrange(0, i as int).contains(y) && y != x),
        decreases v.len() - i,
    {
        let y = v[i];
        proof {
            assert(v@.subrange(0, i + 1) =~= v@.subrange(0, i as int).push(y));
        }
        if y != x {
            r.push(y);
        }
        i += 1;
    }
    proof {
        assert(v@.subrange(0, v@.len() as int) =~= v@);
    }
    r
}

fn adj_link(adj: &mut HashMap<u64, Vec<u64>>, owner: u64, member: u64)
    ensures
        forall|b: u64, m: u64| #[trigger]
            adj_has(final(adj)@, b, m) <==> (adj_has(old(adj)@, b, m) || (b == owner && m
                == member)),
{
    let mut v = match adj.remove(&owner) {
        Some(v) => v,
        None => Vec::new(),
    };
    v.push(member);
    adj.insert(owner, v);
    proof {
        assert forall|b: u64, m: u64| #[trigger]
            adj_has(final(adj)@, b, m) <==> (adj_has(old(adj)@, b, m) || (b == owner && m
                == member)) by {
            if b == owner {
                if old(adj)@.contains_key(owner) {
                    assert(v@ == old(adj)@[owner]@.push(member));
                } else {
                    assert(v@ == seq![member]);
                }
                if m == member {
                    assert(v@[v@.len() - 1] == member);
                } else if adj_has(old(adj)@, b, m) {
                    let k = choose|k: int| 0 <= k < old(adj)@[owner]@.len() && old(adj)@[owner]@[k] == m;
                    assert(v@[k] == m);
                }
            }
        }
    }
}

fn adj_unlink(adj: &mut HashMap<u64, Vec<u64>>, owner: u64, member: u64)
    ensures
        final(adj)@.dom() == old(adj)@.dom(),
        forall|b: u64, m: u64| #[trigger]
            adj_has(final(adj)@, b, m) <==> (adj_has(old(adj)@, b, m) && !(b == owner && m
                == member)),
{
    match adj.remove(&owner) {
        Some(v) => {
            let kept = without_value(&v, member);
            adj.insert(owner, kept);
            assert(adj@.dom() =~= old(adj)@.dom());
        },
        None => {
            assert(adj@ =~= old(adj)@);
        },
    }
}

/// The registry of native handles, keyed by entity.
pub struct HandleRegistry {
    bodies: HashMap<u64, u64>,
    fixtures: HashMap<u64, FixtureEntry>,
    joints: HashMap<u64, JointEntry>,
    particle_systems: HashMap<u64, u64>,
    body_fixtures: HashMap<u64, Vec<u64>>,
    body_joints: HashMap<u64, Vec<u64>>,
}

impl View for HandleRegistry {
    type V = RegistryView;

    closed spec fn view(&self) -> RegistryView {
        RegistryView {
            bodies: self.bodies@,
            fixtures: self.fixtures@,
            joints: self.joints@,
            particle_systems: self.particle_systems@,
        }
    }
}

impl HandleRegistry {
    /// The maps agree with each other: every fixture and joint resolves to
    /// registered bodies, and the adjacency maps list exactly the fixtures
    /// and joints that reference each body.
    pub closed spec fn wf(&self) -> bool {
        &&& forall|f: u64| #[trigger]
            self.fixtures@.contains_key(f) ==> self.bodies@.contains_key(self.fixtures@[f].body)
        &&& forall|j: u64| #[trigger]
            self.joints@.contains_key(j) ==> {
                &&& self.bodies@.contains_key(self.joints@[j].body_a)
                &&& self.bodies@.contains_key(self.joints@[j].body_b)
            }
        &&& forall|b: u64, f: u64| #[trigger]
            adj_has(self.body_fixtures@, b, f) ==> self.fixtures@.contains_key(f)
                && self.fixtures@[f].body == b
        &&& forall|f: u64| #[trigger]
            self.fixtures@.contains_key(f) ==> adj_has(
                self.body_fixtures@,
                self.fixtures@[f].body,
                f,
            )
        &&& forall|b: u64, j: u64| #[trigger]
            adj_has(self.body_joints@, b, j) ==> self.joints@.contains_key(j) && touches(
                self.joints@[j],
                b,
            )
        &&& forall|j: u64| #[trigger]
            self.joints@.contains_key(j) ==> adj_has(self.body_joints@, self.joints@[j].body_a, j)
                && adj_has(self.body_joints@, self.joints@[j].body_b, j)
    }

    /// A well-formed registry has a well-formed view.
    pub proof fn lemma_wf_view(&self)
        requires
            self.wf(),
        ensures
            self@.wf(),
    {
    }

    pub fn new() -> (r: HandleRegistry)
        ensures
            r.wf(),
            r@ == RegistryView::empty(),
    {
        let r = HandleRegistry {
            bodies: HashMap::new(),
            fixtures: HashMap::new(),
            joints: HashMap::new(),
            particle_systems: HashMap::new(),
            body_fixtures: HashMap::new(),
            body_joints: HashMap::new(),
        };
        assert(r@.bodies =~= Map::empty());
        r
    }

    /// Records the native body created for `entity`. A second body for the
    /// same entity is refused.
    pub fn register_body(&mut self, entity: Entity, handle: u64) -> (r: Result<(), RegistryError>)
        requires
            old(self).wf(),
        ensures
            final(self).wf(),
            old(self)@.bodies.contains_key(entity) ==> r == Err::<(), RegistryError>(
                RegistryError::AlreadyRegistered(entity),
            ) && final(self)@ == old(self)@,
            !old(self)@.bodies.contains_key(entity) ==> r is Ok && final(self)@ == old(
                self,
            )@.with_body(entity, handle),
    {
        if self.bodies.contains_key(&entity) {
            return Err(RegistryError::AlreadyRegistered(entity));
        }
        self.bodies.insert(entity, handle);
        Ok(())
    }

    /// The native body of `entity`, if it has one.
    pub fn body(&self, entity: Entity) -> (r: Option<u64>)
        ensures
            r == handle_of(self@.bodies, entity),
    {
        match self.bodies.get(&entity) {
            Some(h) => Some(*h),
            None => None,
        }
    }

    /// The fixture registered for `entity`, with its owning body.
    pub fn fixture(&self, entity: Entity) -> (r: Option<FixtureEntry>)
        ensures
            self@.fixtures.contains_key(entity) ==> r == Some(self@.fixtures[entity]),
            !self@.fixtures.contains_key(entity) ==> r is None,
    {
        match self.fixtures.get(&entity) {
            Some(f) => Some(*f),
            None => None,
        }
    }

    /// The native joint of `entity`, if it has one.
    pub fn joint(&self, entity: Entity) -> (r: Option<JointHandle>)
        ensures
            self@.joints.contains_key(entity) ==> r == Some(self@.joints[entity].handle),
            !self@.joints.contains_key(entity) ==> r is None,
    {
        match self.joints.get(&entity) {
            Some(j) => Some(j.handle),
            None => None,
        }
    }

    /// The native address of the joint of `entity`, for pushing parameters
    /// of the `expected` kind. A joint that was never created, or one of
    /// another kind, is a usage error.
    pub fn joint_address(&self, entity: Entity, expected: b2JointType) -> (r: Result<u64, UsageError>)
        ensures
            !self@.joints.contains_key(entity) ==> r == Err::<u64, UsageError>(
                UsageError::MissingHandle(entity),
            ),
            self@.joints.contains_key(entity) ==> r == address_for_kind(
                self@.joints[entity].handle,
                expected,
            ),
    {
        match self.joints.get(&entity) {
            Some(j) => j.handle.address_for(expected),
            None => Err(UsageError::MissingHandle(entity)),
        }
    }

    /// The native particle system of `entity`, if it has one.
    pub fn particle_system(&self, entity: Entity) -> (r: Option<u64>)
        ensures
            r == handle_of(self@.particle_systems, entity),
    {
        match self.particle_systems.get(&entity) {
            Some(h) => Some(*h),
            None => None,
        }
    }

    /// Records the native particle system created for `entity`.
    pub fn register_particle_system(&mut self, entity: Entity, handle: u64) -> (r: Result<
        (),
        RegistryError,
    >)
        requires
            old(self).wf(),
        ensures
            final(self).wf(),
            old(self)@.particle_systems.contains_key(entity) ==> r == Err::<(), RegistryError>(
                RegistryError::AlreadyRegistered(entity),
            ) && final(self)@ == old(self)@,
            !old(self)@.particle_systems.contains_key(entity) ==> r is Ok && final(self)@ == old(
                self,
            )@.with_particle_system(entity, handle),
    {
        if self.particle_systems.contains_key(&entity) {
            return Err(RegistryError::AlreadyRegistered(entity));
        }
        self.particle_systems.insert(entity, handle);
        Ok(())
    }

    /// Records the native fixture created for `fixture` on `body`. A second
    /// fixture for the same entity, or a body without a native handle, is
    /// refused.
    pub fn register_fixture(&mut self, fixture: Entity, body: Entity, handle: u64) -> (r: Result<
        (),
        RegistryError,
    >)
        requires
            old(self).wf(),
        ensures
            final(self).wf(),
            old(self)@.fixtures.contains_key(fixture) ==> r == Err::<(), RegistryError>(
                RegistryError::AlreadyRegistered(fixture),
            ),
            !old(self)@.fixtures.contains_key(fixture) && !old(self)@.bodies.contains_key(body)
                ==> r == Err::<(), RegistryError>(RegistryError::MissingBody(body)),
            r is Err ==> final(self)@ == old(self)@,
            !old(self)@.fixtures.contains_key(fixture) && old(self)@.bodies.contains_key(body)
                ==> r is Ok && final(self)@ == old(self)@.with_fixture(fixture, body, handle),
    {
        if self.fixtures.contains_key(&fixture) {
            return Err(RegistryError::AlreadyRegistered(fixture));
        }
        if !self.bodies.contains_key(&body) {
            return Err(RegistryError::MissingBody(body));
        }
        self.fixtures.insert(fixture, FixtureEntry { handle, body });
        adj_link(&mut self.body_fixtures, body, fixture);
        Ok(())
    }

    /// Removes the fixture of `entity` and returns what its native
    /// destruction needs. A fixture that is already gone, for instance
    /// because its body was destroyed first, yields `None`.
    pub fn destroy_fixture(&mut self, entity: Entity) -> (r: Option<FixtureTeardown>)
        requires
            old(self).wf(),
        ensures
            final(self).wf(),
            !old(self)@.fixtures.contains_key(entity) ==> r is None && final(self)@ == old(self)@,
            old(self)@.fixtures.contains_key(entity) ==> r == Some(
                FixtureTeardown {
                    handle: old(self)@.fixtures[entity].handle,
                    body_handle: old(self)@.bodies[old(self)@.fixtures[entity].body],
                },
            ) && final(self)@ == old(self)@.without_fixture(entity),
    {
        let entry = match self.fixtures.remove(&entity) {
            Some(entry) => entry,
            None => {
                assert(self.fixtures@ =~= old(self).fixtures@);
                return None;
            },
        };
        adj_unlink(&mut self.body_fixtures, entry.body, entity);
        let body_handle = match self.bodies.get(&entry.body) {
            Some(h) => *h,
            None => {
                proof {
                    assert(old(self).fixtures@.contains_key(entity));
                }
                return None;
            },
        };
        Some(FixtureTeardown { handle: entry.handle, body_handle })
    }

    /// The native bodies a joint connects. Building a joint before both of
    /// its bodies exist natively is a usage error.
    pub fn joint_body_handles(&self, joint: &b2Joint) -> (r: Result<(u64, u64), UsageError>)
        ensures
            r == joint_bodies_ready(self@, *joint),
    {
        let a = match self.bodies.get(&joint.body_a) {
            Some(h) => *h,
            None => {
                return Err(UsageError::MissingBody(joint.body_a));
            },
        };
        let b = match self.bodies.get(&joint.body_b) {
            Some(h) => *h,
            None => {
                return Err(UsageError::MissingBody(joint.body_b));
            },
        };
        Ok((a, b))
    }

    /// Records the native joint created for `joint` between `body_a` and
    /// `body_b`.
    pub fn register_joint(
        &mut self,
        joint: Entity,
        body_a: Entity,
        body_b: Entity,
        handle: JointHandle,
    ) -> (r: Result<(), RegistryError>)
        requires
            old(self).wf(),
        ensures
            final(self).wf(),
            old(self)@.joints.contains_key(joint) ==> r == Err::<(), RegistryError>(
                RegistryError::AlreadyRegistered(joint),
            ),
            !old(self)@.joints.contains_key(joint) && !old(self)@.bodies.contains_key(body_a)
                ==> r == Err::<(), RegistryError>(RegistryError::MissingBody(body_a)),
            !old(self)@.joints.contains_key(joint) && old(self)@.bodies.contains_key(body_a)
                && !old(self)@.bodies.contains_key(body_b) ==> r == Err::<(), RegistryError>(
                RegistryError::MissingBody(body_b),
            ),
            r is Err ==> final(self)@ == old(self)@,
            !old(self)@.joints.contains_key(joint) && old(self)@.bodies.contains_key(body_a)
                && old(self)@.bodies.contains_key(body_b) ==> r is Ok && final(self)@ == old(
                self,
            )@.with_joint(joint, JointEntry { handle, body_a, body_b }),
    {
        if self.joints.contains_key(&joint) {
            return Err(RegistryError::AlreadyRegistered(joint));
        }
        if !self.bodies.contains_key(&body_a) {
            return Err(RegistryError::MissingBody(body_a));
        }
        if !self.bodies.contains_key(&body_b) {
            return Err(RegistryError::MissingBody(body_b));
        }
        self.joints.insert(joint, JointEntry { handle, body_a, body_b });
        adj_link(&mut self.body_joints, body_a, joint);
        adj_link(&mut self.body_joints, body_b, joint);
        Ok(())
    }

    /// Removes the joint of `entity` and returns its native handle, or
    /// `None` when it is already gone.
    pub fn destroy_joint(&mut self, entity: Entity) -> (r: Option<JointHandle>)
        requires
            old(self).wf(),
        ensures
            final(self).wf(),
            !old(self)@.joints.contains_key(entity) ==> r is None && final(self)@ == old(self)@,
            old(self)@.joints.contains_key(entity) ==> r == Some(old(self)@.joints[entity].handle)
                && final(self)@ == old(self)@.without_joint(entity),
    {
        let entry = match self.joints.remove(&entity) {
            Some(entry) => entry,
            None => {
                assert(self.joints@ =~= old(self).joints@);
                return None;
            },
        };
        adj_unlink(&mut self.body_joints, entry.body_a, entity);
        adj_unlink(&mut self.body_joints, entry.body_b, entity);
        Some(entry.handle)
    }

    /// Removes the body of `entity` together with every fixture and joint
    /// that referenced it (the native engine destroys those along with the
    /// body), and reports what went. `None` when the body is already gone.
    pub fn destroy_body(&mut self, entity: Entity) -> (r: Option<BodyTeardown>)
        requires
            old(self).wf(),
        ensures
            final(self).wf(),
            !old(self)@.bodies.contains_key(entity) ==> r is None && final(self)@ == old(self)@,
            old(self)@.bodies.contains_key(entity) ==> r is Some && final(self)@ == old(
                self,
            )@.without_body(entity),
            r matches Some(t) ==> {
                &&& t.handle == old(self)@.bodies[entity]
                &&& t.fixtures@.no_duplicates()
                &&& forall|f: Entity| #[trigger]
                    t.fixtures@.contains(f) <==> (old(self)@.fixtures.contains_key(f) && old(
                        self,
                    )@.fixtures[f].body == entity)
                &&& t.joints@.no_duplicates()
                &&& forall|j: Entity| #[trigger]
                    t.joints@.contains(j) <==> (old(self)@.joints.contains_key(j) && touches(
                        old(self)@.joints[j],
                        entity,
                    ))
            },
    {
        let handle = match self.bodies.remove(&entity) {
            Some(h) => h,
            None => {
                assert(self.bodies@ =~= old(self).bodies@);
                return None;
            },
        };
        let fixture_list = match self.body_fixtures.remove(&entity) {
            Some(v) => v,
            None => Vec::new(),
        };
        let ghost old_fx = old(self).fixtures@;
        let ghost adj_fx = self.body_fixtures@;
        assert forall|f: u64| #[trigger]
            old_fx.contains_key(f) && old_fx[f].body == entity implies fixture_list@.contains(f) by {
            assert(adj_has(old(self).body_fixtures@, entity, f));
        }
        assert forall|f: u64| #[trigger]
            fixture_list@.contains(f) implies old_fx.contains_key(f) && old_fx[f].body == entity by {
            assert(adj_has(old(self).body_fixtures@, entity, f));
        }
        let mut fixtures: Vec<Entity> = Vec::new();
        let mut i: usize = 0;
        while i < fixture_list.len()
            invariant
                i <= fixture_list.len(),
                self.bodies@ == old(self).bodies@.remove(entity),
                self.body_fixtures@ == adj_fx,
                adj_fx == old(self).body_fixtures@.remove(entity),
                self.joints@ == old(self).joints@,
                self.body_joints@ == old(self).body_joints@,
                self.particle_systems@ == old(self).particle_systems@,
                old_fx == old(self).fixtures@,
                forall|f: u64| #[trigger]
                    old_fx.contains_key(f) && old_fx[f].body == entity ==> fixture_list@.contains(f),
                forall|f: u64| #[trigger]
                    fixture_list@.contains(f) ==> old_fx.contains_key(f) && old_fx[f].body == entity,
                forall|f: u64| #[trigger]
                    self.fixtures@.contains_key(f) <==> (old_fx.contains_key(f)
                        && !fixture_list@.subrange(0, i as int).contains(f)),
                forall|f: u64| #[trigger]
                    self.fixtures@.contains_key(f) ==> self.fixtures@[f] == old_fx[f],
                fixtures@.no_duplicates(),
                forall|f: u64| #[trigger]
                    fixtures@.contains(f) <==> fixture_list@.subrange(0, i as int).contains(f),
            decreases fixture_list.len() - i,
        {
            let y = fixture_list[i];
            proof {
                assert(fixture_list@.subrange(0, i + 1) =~= fixture_list@.subrange(0, i as int).push(
                    y,
                ));
                assert(fixture_list@.contains(y));
            }
            match self.fixtures.remove(&y) {
                Some(_) => {
                    proof {
                        lemma_push_no_duplicates(fixtures@, y);
                    }
                    fixtures.push(y);
                },
                None => {},
            }
            i += 1;
        }
        proof {
            assert(fixture_list@.subrange(0, fixture_list@.len() as int) =~= fixture_list@);
        }
        let joint_list = match self.body_joints.remove(&entity) {
            Some(v) => v,
            None => Vec::new(),
        };
        let ghost old_js = old(self).joints@;
        assert forall|j: u64| #[trigger]
            old_js.contains_key(j) && touches(old_js[j], entity) implies joint_list@.contains(j) by {
            assert(adj_has(old(self).body_joints@, old_js[j].body_a, j));
            assert(adj_has(old(self).body_joints@, old_js[j].body_b, j));
        }
        assert forall|j: u64| #[trigger]
            joint_list@.contains(j) implies old_js.contains_key(j) && touches(old_js[j], entity) by {
            assert(adj_has(old(self).body_joints@, entity, j));
        }
        assert forall|b: u64, j: u64| #[trigger]
            adj_has(self.body_joints@, b, j) implies self.joints@.contains_key(j) && touches(
                self.joints@[j],
                b,
            ) by {
            assert(adj_has(old(self).body_joints@, b, j));
        }
        assert forall|j: u64| #[trigger]
            self.joints@.contains_key(j) && !touches(self.joints@[j], entity) implies adj_has(
                self.body_joints@,
                self.joints@[j].body_a,
                j,
            ) && adj_has(self.body_joints@, self.joints@[j].body_b, j) by {
            assert(adj_has(old(self).body_joints@, self.joints@[j].body_a, j));
            assert(adj_has(old(self).body_joints@, self.joints@[j].body_b, j));
        }
        let mut joints: Vec<Entity> = Vec::new();
        let mut k: usize = 0;
        while k < joint_list.len()
            invariant
                k <= joint_list.len(),
                self.bodies@ == old(self).bodies@.remove(entity),
                self.body_fixtures@ == adj_fx,
                self.particle_systems@ == old(self).particle_systems@,
                old_js == old(self).joints@,
                forall|f: u64| #[trigger]
                    self.fixtures@.contains_key(f) <==> (old_fx.contains_key(f) && old_fx[f].body
                        != entity),
                forall|f: u64| #[trigger]
                    self.fixtures@.contains_key(f) ==> self.fixtures@[f] == old_fx[f],
                forall|j: u64| #[trigger]
                    old_js.contains_key(j) && touches(old_js[j], entity) ==> joint_list@.contains(j),
                forall|j: u64| #[trigger]
                    joint_list@.contains(j) ==> old_js.contains_key(j) && touches(old_js[j], entity),
                forall|j: u64| #[trigger]
                    self.joints@.contains_key(j) <==> (old_js.contains_key(j)
                        && !joint_list@.subrange(0, k as int).contains(j)),
                forall|j: u64| #[trigger]
                    self.joints@.contains_key(j) ==> self.joints@[j] == old_js[j],
                !self.body_joints@.contains_key(entity),
                forall|b: u64, j: u64| #[trigger]
                    adj_has(self.body_joints@, b, j) ==> self.joints@.contains_key(j) && touches(
                        self.joints@[j],
                        b,
                    ),
                forall|j: u64| #[trigger]
                    self.joints@.contains_key(j) && !touches(self.joints@[j], entity) ==> adj_has(
                        self.body_joints@,
                        self.joints@[j].body_a,
                        j,
                    ) && adj_has(self.body_joints@, self.joints@[j].body_b, j),
                joints@.no_duplicates(),
                forall|j: u64| #[trigger]
                    joints@.contains(j) <==> joint_list@.subrange(0, k as int).contains(j),
            decreases joint_list.len() - k,
        {
            let y = joint_list[k];
            proof {
                assert(joint_list@.subrange(0, k + 1) =~= joint_list@.subrange(0, k as int).push(y));
                assert(joint_list@.contains(y));
            }
            match self.joints.remove(&y) {
                Some(entry) => {
                    let other = if entry.body_a == entity {
                        entry.body_b
                    } else {
                        entry.body_a
                    };
                    adj_unlink(&mut self.body_joints, other, y);
                    proof {
                        lemma_push_no_duplicates(joints@, y);
                    }
                    joints.push(y);
                },
                None => {},
            }
            k += 1;
        }
        proof {
            assert(joint_list@.subrange(0, joint_list@.len() as int) =~= joint_list@);
            let v = old(self)@.without_body(entity);
            assert(self.fixtures@ =~= v.fixtures);
            assert(self.joints@ =~= v.joints);
            assert forall|b: u64, f: u64| #[trigger]
                adj_has(self.body_fixtures@, b, f) implies self.fixtures@.contains_key(f)
                    && self.fixtures@[f].body == b by {
                assert(adj_has(old(self).body_fixtures@, b, f));
            }
            assert forall|f: u64| #[trigger]
                self.fixtures@.contains_key(f) implies adj_has(
                    self.body_fixtures@,
                    self.fixtures@[f].body,
                    f,
                ) by {
                assert(adj_has(old(self).body_fixtures@, old_fx[f].body, f));
            }
        }
        Some(BodyTeardown { handle, fixtures, joints })
    }

    /// The fixtures registered on `body`, each listed once.
    pub fn fixtures_of(&self, body: Entity) -> (r: Vec<Entity>)
        requires
            self.wf(),
        ensures
            r@.no_duplicates(),
            forall|f: Entity| #[trigger]
                r@.contains(f) <==> (self@.fixtures.contains_key(f) && self@.fixtures[f].body == body),
    {
        let mut r: Vec<Entity> = Vec::new();
        match self.body_fixtures.get(&body) {
            Some(list) => {
                let mut i: usize = 0;
                while i < list.len()
                    invariant
                        i <= list.len(),
                        self.body_fixtures@.contains_key(body),
                        self.body_fixtures@[body] == *list,
                        r@.no_duplicates(),
                        forall|f: Entity| #[trigger]
                            r@.contains(f) <==> list@.subrange(0, i as int).contains(f),
                    decreases list.len() - i,
                {
                    let f = list[i];
                    proof {
                        assert(list@.subrange(0, i + 1) =~= list@.subrange(0, i as int).push(f));
                    }
                    let seen = contains_u64(&r, f);
                    if !seen {
                        proof {
                            lemma_push_no_duplicates(r@, f);
                        }
                        r.push(f);
                    }
                    i += 1;
                }
                proof {
                    assert(list@.subrange(0, list@.len() as int) =~= list@);
                    assert forall|f: Entity| #[trigger] r@.contains(f) <==> (self@.fixtures.contains_key(f)
                        && self@.fixtures[f].body == body) by {
                        if self@.fixtures.contains_key(f) && self@.fixtures[f].body == body {
                            assert(adj_has(self.body_fixtures@, body, f));
                        }
                        if r@.contains(f) {
                            assert(adj_has(self.body_fixtures@, body, f));
                        }
                    }
                }
            },
            None => {
                proof {
                    assert forall|f: Entity| #[trigger] r@.contains(f) <==> (self@.fixtures.contains_key(f)
                        && self@.fixtures[f].body == body) by {
                        if self@.fixtures.contains_key(f) && self@.fixtures[f].body == body {
                            assert(adj_has(self.body_fixtures@, body, f));
                        }
                    }
                }
            },
        }
        r
    }
}

} // verus!
