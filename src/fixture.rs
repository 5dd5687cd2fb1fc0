//! Collision filtering data carried by a fixture.
use vstd::prelude::*;

verus! {

/// Which categories a fixture belongs to, which categories it collides with,
/// and its collision group.
#[allow(non_camel_case_types)]
#[derive(Clone, Copy, Debug, PartialEq, Eq, Structural)]
pub struct b2Filter {
    pub category: u16,
    pub mask: u16,
    pub group_index: i16,
}

impl Default for b2Filter {
    /// Category one, colliding with everything, in no group.
    fn default() -> (r: b2Filter)
        ensures
            r == (b2Filter { category: 0x0001, mask: 0xFFFF, group_index: 0 }),
    {
        b2Filter { category: 0x0001, mask: 0xFFFF, group_index: 0 }
    }
}

} // verus!
