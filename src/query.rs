//! Region queries: the native engine reports each fixture whose bounds
//! overlap the queried box, and the callback collects them.
use vstd::prelude::*;

use crate::registry::Entity;

verus! {

/// Collects every fixture entity reported by a box query, in report order.
#[allow(non_camel_case_types)]
#[derive(Debug)]
pub struct b2QueryAABB {
    result: Vec<Entity>,
}

impl b2QueryAABB {
    /// The fixtures reported so far.
    pub closed spec fn spec_reports(&self) -> Seq<Entity> {
        self.result@
    }

    pub fn new() -> (r: b2QueryAABB)
        ensures
            r.spec_reports() == Seq::<Entity>::empty(),
    {
        b2QueryAABB { result: Vec::new() }
    }

    /// Records a reported fixture and asks the engine to go on.
    pub fn report_fixture(&mut self, entity: Entity) -> (r: bool)
        ensures
            final(self).spec_reports() == old(self).spec_reports().push(entity),
            r,
    {
        self.result.push(entity);
        true
    }

    pub fn into_result(self) -> (r: Vec<Entity>)
        ensures
            r@ == self.spec_reports(),
    {
        self.result
    }
}

} // verus!
