use bevy_liquidfun::joints::{b2Joint, b2JointType, JointHandle, UsageError};
use bevy_liquidfun::registry::{FixtureTeardown, HandleRegistry, RegistryError};

#[test]
fn registered_body_is_found() {
    let mut r = HandleRegistry::new();
    assert_eq!(r.body(7), None);
    assert_eq!(r.register_body(7, 0x1000), Ok(()));
    assert_eq!(r.body(7), Some(0x1000));
}

#[test]
fn second_body_for_entity_is_refused() {
    let mut r = HandleRegistry::new();
    r.register_body(7, 0x1000).unwrap();
    assert_eq!(r.register_body(7, 0x2000), Err(RegistryError::AlreadyRegistered(7)));
    assert_eq!(r.body(7), Some(0x1000));
}

#[test]
fn fixture_needs_registered_body() {
    let mut r = HandleRegistry::new();
    assert_eq!(r.register_fixture(3, 7, 0x30), Err(RegistryError::MissingBody(7)));
    assert!(r.fixture(3).is_none());
    r.register_body(7, 0x1000).unwrap();
    assert_eq!(r.register_fixture(3, 7, 0x30), Ok(()));
    assert_eq!(r.register_fixture(3, 7, 0x31), Err(RegistryError::AlreadyRegistered(3)));
    let entry = r.fixture(3).unwrap();
    assert_eq!((entry.handle, entry.body), (0x30, 7));
}

#[test]
fn destroying_fixture_twice_is_a_no_op() {
    let mut r = HandleRegistry::new();
    r.register_body(7, 0x1000).unwrap();
    r.register_fixture(3, 7, 0x30).unwrap();
    assert_eq!(r.destroy_fixture(3), Some(FixtureTeardown { handle: 0x30, body_handle: 0x1000 }));
    assert_eq!(r.destroy_fixture(3), None);
}

#[test]
fn removing_body_cascades_to_fixtures_and_joints() {
    let mut r = HandleRegistry::new();
    r.register_body(1, 0x100).unwrap();
    r.register_body(2, 0x200).unwrap();
    r.register_fixture(1, 1, 0x11).unwrap(); // fixture on the body's own entity
    r.register_fixture(10, 1, 0x12).unwrap();
    r.register_fixture(11, 1, 0x13).unwrap();
    r.register_fixture(20, 2, 0x21).unwrap();
    let h = JointHandle { kind: b2JointType::Distance, address: 0x900 };
    r.register_joint(30, 1, 2, h).unwrap();

    let t = r.destroy_body(1).unwrap();
    assert_eq!(t.handle, 0x100);
    let mut fixtures = t.fixtures.clone();
    fixtures.sort();
    assert_eq!(fixtures, vec![1, 10, 11]);
    assert_eq!(t.joints, vec![30]);

    assert_eq!(r.body(1), None);
    assert!(r.fixture(1).is_none() && r.fixture(10).is_none() && r.fixture(11).is_none());
    assert!(r.joint(30).is_none());
    // The other body and its fixture stay.
    assert_eq!(r.body(2), Some(0x200));
    assert_eq!(r.fixture(20).unwrap().handle, 0x21);
    // The fixture went with its body: removing it later is a no-op.
    assert_eq!(r.destroy_fixture(10), None);
    assert!(r.destroy_body(1).is_none());
}

#[test]
fn joint_creation_needs_both_bodies() {
    let mut r = HandleRegistry::new();
    let joint = b2Joint::new(b2JointType::Weld, 1, 2, false);
    assert_eq!(r.joint_body_handles(&joint), Err(UsageError::MissingBody(1)));
    r.register_body(1, 0x100).unwrap();
    assert_eq!(r.joint_body_handles(&joint), Err(UsageError::MissingBody(2)));
    let h = JointHandle { kind: b2JointType::Weld, address: 0x900 };
    assert_eq!(r.register_joint(5, 1, 2, h), Err(RegistryError::MissingBody(2)));
    r.register_body(2, 0x200).unwrap();
    assert_eq!(r.joint_body_handles(&joint), Ok((0x100, 0x200)));
    assert_eq!(r.register_joint(5, 1, 2, h), Ok(()));
    assert_eq!(r.register_joint(5, 1, 2, h), Err(RegistryError::AlreadyRegistered(5)));
    assert_eq!(r.joint(5), Some(h));
    assert_eq!(r.joint(5).unwrap().address_for(b2JointType::Weld), Ok(0x900));
    assert_eq!(
        r.joint(5).unwrap().address_for(b2JointType::Motor),
        Err(UsageError::KindMismatch { expected: b2JointType::Motor, found: b2JointType::Weld })
    );
    assert_eq!(r.destroy_joint(5), Some(h));
    assert_eq!(r.destroy_joint(5), None);
    // The bodies no longer list the joint: destroying one takes nothing else.
    assert!(r.destroy_body(2).unwrap().joints.is_empty());
}

#[test]
fn joint_on_a_single_body_is_listed_once() {
    let mut r = HandleRegistry::new();
    r.register_body(1, 0x100).unwrap();
    let h = JointHandle { kind: b2JointType::Motor, address: 0x1 };
    r.register_joint(9, 1, 1, h).unwrap();
    assert_eq!(r.destroy_body(1).unwrap().joints, vec![9]);
}

#[test]
fn joint_record_accessors() {
    let joint = b2Joint::new(b2JointType::Distance, 4, 5, true);
    assert_eq!(*joint.joint_type(), b2JointType::Distance);
    assert_eq!(*joint.body_a(), 4);
    assert_eq!(*joint.body_b(), 5);
    assert!(joint.collide_connected());
}

#[test]
fn particle_systems_are_registered_once() {
    let mut r = HandleRegistry::new();
    assert_eq!(r.particle_system(4), None);
    assert_eq!(r.register_particle_system(4, 0x44), Ok(()));
    assert_eq!(r.register_particle_system(4, 0x45), Err(RegistryError::AlreadyRegistered(4)));
    assert_eq!(r.particle_system(4), Some(0x44));
}

#[test]
fn fixtures_of_lists_each_fixture_of_a_body() {
    let mut r = HandleRegistry::new();
    assert!(r.fixtures_of(1).is_empty());
    r.register_body(1, 0x100).unwrap();
    r.register_body(2, 0x200).unwrap();
    r.register_fixture(10, 1, 0x11).unwrap();
    r.register_fixture(11, 1, 0x12).unwrap();
    r.register_fixture(20, 2, 0x21).unwrap();
    let mut f = r.fixtures_of(1);
    f.sort();
    assert_eq!(f, vec![10, 11]);
    r.destroy_fixture(10);
    assert_eq!(r.fixtures_of(1), vec![11]);
    assert_eq!(r.fixtures_of(2), vec![20]);
}

#[test]
fn joint_address_checks_presence_and_kind() {
    let mut r = HandleRegistry::new();
    assert_eq!(r.joint_address(5, b2JointType::Weld), Err(UsageError::MissingHandle(5)));
    r.register_body(1, 0x100).unwrap();
    r.register_body(2, 0x200).unwrap();
    r.register_joint(5, 1, 2, JointHandle { kind: b2JointType::Weld, address: 0x900 }).unwrap();
    assert_eq!(r.joint_address(5, b2JointType::Weld), Ok(0x900));
    assert_eq!(
        r.joint_address(5, b2JointType::Distance),
        Err(UsageError::KindMismatch { expected: b2JointType::Distance, found: b2JointType::Weld })
    );
}
