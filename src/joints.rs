//! Joint kinds and the kind-tagged native joint handle.
//!
//! Every joint kind shares one lifecycle: its native counterpart is built
//! from the two body handles once both exist, and local parameter changes
//! are pushed to it through a handle that must carry the same kind.
use vstd::prelude::*;

use crate::registry::Entity;

verus! {

/// The kinds of joint the native engine knows. Those with a leading
/// underscore have no component of their own yet.
#[allow(non_camel_case_types)]
#[derive(Clone, Copy, Debug, PartialEq, Eq, Structural)]
pub enum b2JointType {
    Revolute,
    Prismatic,
    Distance,
    Weld,
    Motor,
    _Pulley,
    _Mouse,
    _Gear,
    _Wheel,
    _Friction,
    _Area,
}

/// The part of a joint record shared by every kind: which two bodies it
/// connects and whether they still collide with each other.
#[allow(non_camel_case_types)]
#[derive(Clone, Copy, Debug, PartialEq, Eq, Structural)]
pub struct b2Joint {
    pub joint_type: b2JointType,
    pub body_a: Entity,
    pub body_b: Entity,
    pub collide_connected: bool,
}

impl b2Joint {
    pub fn new(joint_type: b2JointType, body_a: Entity, body_b: Entity, collide_connected: bool) -> (r:
        b2Joint)
        ensures
            r == (b2Joint { joint_type, body_a, body_b, collide_connected }),
    {
        b2Joint { joint_type, body_a, body_b, collide_connected }
    }

    pub fn joint_type(&self) -> (r: &b2JointType)
        ensures
            *r == self.joint_type,
    {
        &self.joint_type
    }

    pub fn body_a(&self) -> (r: &Entity)
        ensures
            *r == self.body_a,
    {
        &self.body_a
    }

    pub fn body_b(&self) -> (r: &Entity)
        ensures
            *r == self.body_b,
    {
        &self.body_b
    }

    pub fn collide_connected(&self) -> (r: bool)
        ensures
            r == self.collide_connected,
    {
        self.collide_connected
    }
}

/// A native joint, tagged with the kind it was created as. The address is
/// the native object's location, as an integer.
#[derive(Clone, Copy, Debug, PartialEq, Eq, Structural)]
pub struct JointHandle {
    pub kind: b2JointType,
    pub address: u64,
}

/// A usage-contract violation: a sign of an ordering bug in the caller, never
/// a transient condition.
#[derive(Clone, Copy, Debug, PartialEq, Eq, Structural)]
pub enum UsageError {
    /// A joint names a body that has no native handle yet.
    MissingBody(Entity),
    /// A joint handle was used as a kind other than the one it was created as.
    KindMismatch { expected: b2JointType, found: b2JointType },
    /// No native handle is registered for this entity.
    MissingHandle(Entity),
}

/// The address of `h` when it is of the `expected` kind.
pub open spec fn address_for_kind(h: JointHandle, expected: b2JointType) -> Result<u64, UsageError> {
    if h.kind == expected {
        Ok(h.address)
    } else {
        Err(UsageError::KindMismatch { expected, found: h.kind })
    }
}

impl JointHandle {
    /// The native address, for pushing parameters of the given kind. A handle
    /// of another kind is refused.
    pub fn address_for(&self, expected: b2JointType) -> (r: Result<u64, UsageError>)
        ensures
            r == address_for_kind(*self, expected),
    {
        if self.kind == expected {
            Ok(self.address)
        } else {
            Err(UsageError::KindMismatch { expected, found: self.kind })
        }
    }
}

} // verus!
