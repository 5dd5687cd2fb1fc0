use bevy_liquidfun::body::{b2BodyType, BodyChangeTracker};
use bevy_liquidfun::fixture::b2Filter;
use bevy_liquidfun::joints::{b2JointType, JointHandle};
use bevy_liquidfun::pipeline::{destroy_removed, NativeDestroy};
use bevy_liquidfun::registry::{FixtureTeardown, HandleRegistry};

fn world() -> HandleRegistry {
    let mut r = HandleRegistry::new();
    r.register_body(1, 0x100).unwrap();
    r.register_body(2, 0x200).unwrap();
    r.register_fixture(1, 1, 0x11).unwrap();
    r.register_fixture(10, 1, 0x12).unwrap();
    r.register_fixture(20, 2, 0x21).unwrap();
    r.register_joint(30, 1, 2, JointHandle { kind: b2JointType::Distance, address: 0x300 }).unwrap();
    r
}

#[test]
fn destroy_phase_runs_joints_then_fixtures_then_bodies() {
    let mut r = world();
    let mut tracker = BodyChangeTracker::new();
    tracker.record_sync(1, 5);
    let cmds = destroy_removed(&mut r, &mut tracker, &vec![30], &vec![20], &vec![1]);
    assert_eq!(cmds.len(), 3);
    match &cmds[0] {
        NativeDestroy::Joint(h) => assert_eq!(h.address, 0x300),
        _ => panic!("joint first"),
    }
    match &cmds[1] {
        NativeDestroy::Fixture(t) => assert_eq!(*t, FixtureTeardown { handle: 0x21, body_handle: 0x200 }),
        _ => panic!("fixture second"),
    }
    match &cmds[2] {
        NativeDestroy::Body { handle, despawn } => {
            assert_eq!(*handle, 0x100);
            // The fixture on the body's own entity is not despawned separately.
            assert_eq!(despawn, &vec![10]);
        }
        _ => panic!("body last"),
    }
    assert_eq!(r.body(1), None);
    assert!(r.fixture(10).is_none() && r.fixture(1).is_none() && r.fixture(20).is_none());
    assert_eq!(r.body(2), Some(0x200));
    assert!(tracker.needs_write_back(1, 5));
}

#[test]
fn destroy_phase_skips_what_is_already_gone() {
    let mut r = world();
    let mut tracker = BodyChangeTracker::new();
    let first = destroy_removed(&mut r, &mut tracker, &vec![], &vec![], &vec![1]);
    assert_eq!(first.len(), 1);
    // Next pass: the despawned fixture and the body-bound joint come back as removals.
    let second = destroy_removed(&mut r, &mut tracker, &vec![30], &vec![10], &vec![1]);
    assert!(second.is_empty());
}

#[test]
fn change_tracker_lets_outside_changes_win() {
    let mut t = BodyChangeTracker::new();
    assert!(t.needs_write_back(1, 3));
    t.record_sync(1, 3);
    assert!(!t.needs_write_back(1, 3));
    assert!(t.needs_write_back(1, 4));
    t.forget(1);
    assert!(t.needs_write_back(1, 3));
}

#[test]
fn defaults() {
    assert_eq!(b2BodyType::default(), b2BodyType::Static);
    let f = b2Filter::default();
    assert_eq!((f.category, f.mask, f.group_index), (0x0001, 0xFFFF, 0));
}

use bevy_liquidfun::joints::{b2Joint, UsageError};
use bevy_liquidfun::pipeline::{
    joint_creation_plan, register_created_bodies, register_created_joints, CreatedBody, CreatedJoint,
};
use bevy_liquidfun::registry::RegistryError;

#[test]
fn every_created_body_is_found_after_the_pass() {
    let mut r = HandleRegistry::new();
    let mut tracker = BodyChangeTracker::new();
    let created = vec![
        CreatedBody { entity: 1, handle: 0x100, generation: 7 },
        CreatedBody { entity: 2, handle: 0x200, generation: 8 },
        CreatedBody { entity: 3, handle: 0x300, generation: 9 },
    ];
    assert_eq!(register_created_bodies(&mut r, &mut tracker, &created), Ok(()));
    assert_eq!((r.body(1), r.body(2), r.body(3)), (Some(0x100), Some(0x200), Some(0x300)));
    assert!(!tracker.needs_write_back(2, 8));
    assert!(tracker.needs_write_back(2, 9));
    assert_eq!(r.body(4), None);
}

#[test]
fn created_bodies_are_registered_all_or_none() {
    let mut r = HandleRegistry::new();
    let mut tracker = BodyChangeTracker::new();
    r.register_body(2, 0x999).unwrap();
    let created = vec![
        CreatedBody { entity: 1, handle: 0x100, generation: 1 },
        CreatedBody { entity: 2, handle: 0x200, generation: 1 },
    ];
    assert_eq!(register_created_bodies(&mut r, &mut tracker, &created), Err(RegistryError::AlreadyRegistered(2)));
    assert_eq!(r.body(1), None);
    assert_eq!(r.body(2), Some(0x999));
    let twice = vec![
        CreatedBody { entity: 5, handle: 0x1, generation: 1 },
        CreatedBody { entity: 5, handle: 0x2, generation: 1 },
    ];
    assert_eq!(register_created_bodies(&mut r, &mut tracker, &twice), Err(RegistryError::AlreadyRegistered(5)));
    assert_eq!(r.body(5), None);
}

#[test]
fn joints_are_planned_only_when_all_bodies_exist() {
    let mut r = HandleRegistry::new();
    r.register_body(1, 0x100).unwrap();
    let joints = vec![
        b2Joint::new(b2JointType::Weld, 1, 1, false),
        b2Joint::new(b2JointType::Motor, 1, 2, true),
    ];
    assert_eq!(joint_creation_plan(&r, &joints), Err(UsageError::MissingBody(2)));
    r.register_body(2, 0x200).unwrap();
    assert_eq!(joint_creation_plan(&r, &joints), Ok(vec![(0x100, 0x100), (0x100, 0x200)]));
    assert_eq!(joint_creation_plan(&r, &vec![]), Ok(vec![]));
}

#[test]
fn every_created_joint_is_registered_with_its_kind() {
    let mut r = world();
    let weld = JointHandle { kind: b2JointType::Weld, address: 0x700 };
    let motor = JointHandle { kind: b2JointType::Motor, address: 0x800 };
    let created = vec![
        CreatedJoint { entity: 40, body_a: 1, body_b: 2, handle: weld },
        CreatedJoint { entity: 41, body_a: 2, body_b: 2, handle: motor },
    ];
    assert_eq!(register_created_joints(&mut r, &created), Ok(()));
    assert_eq!(r.joint(40), Some(weld));
    assert_eq!(r.joint_address(41, b2JointType::Motor), Ok(0x800));
    assert_eq!(r.joint(30).unwrap().address, 0x300);
    // Refused as a whole: 30 exists already.
    let again = vec![
        CreatedJoint { entity: 42, body_a: 1, body_b: 2, handle: weld },
        CreatedJoint { entity: 30, body_a: 1, body_b: 2, handle: weld },
    ];
    assert_eq!(register_created_joints(&mut r, &again), Err(RegistryError::AlreadyRegistered(30)));
    assert!(r.joint(42).is_none());
    let missing = vec![CreatedJoint { entity: 43, body_a: 1, body_b: 9, handle: weld }];
    assert_eq!(register_created_joints(&mut r, &missing), Err(RegistryError::MissingBody(9)));
}
