//! Ray-cast dispatch. The native engine reports each fixture the ray meets;
//! a filter drops excluded bodies and categories before a policy sees the
//! hit, and the policy answers how the engine should go on.
//!
//! A hit's fraction along the ray is carried as the IEEE-754 bit pattern of
//! the native single-precision value. Fractions are never negative, and for
//! non-negative values the order of the bit patterns as unsigned integers is
//! the numeric order.
use vstd::prelude::*;

use std::collections::HashSet;

use crate::registry::Entity;

verus! {

broadcast use vstd::seq_lib::group_seq_properties, vstd::std_specs::hash::group_hash_axioms;

/// One fixture met by the ray, as the native engine reports it. `index`
/// numbers the reports of one cast, so that a caller can find the geometry
/// (point and normal) it kept for the hit.
#[derive(Clone, Copy, Debug, PartialEq, Eq, Structural)]
pub struct RayReport {
    pub body_entity: Entity,
    pub fixture_entity: Entity,
    pub category_bits: u16,
    pub fraction_bits: u32,
    pub index: u64,
}

/// How the native engine should continue after a report.
#[derive(Clone, Copy, Debug, PartialEq, Eq, Structural)]
pub enum RayControl {
    /// The hit was filtered out: go on as if it had not been seen.
    Ignore,
    /// Stop the cast now.
    Terminate,
    /// Go on, but only up to this fraction (bit pattern) of the ray.
    Clip(u32),
    /// Go on over the whole ray.
    Continue,
}

/// Which hits a cast may use: bodies to leave out, and optionally a mask of
/// fixture categories of which at least one must be present.
#[allow(non_camel_case_types)]
#[derive(Debug)]
pub struct b2RayCastFilter {
    excluded_bodies: HashSet<Entity>,
    allowed_categories: Option<u16>,
}

impl b2RayCastFilter {
    pub closed spec fn spec_excluded(&self) -> Set<Entity> {
        self.excluded_bodies@
    }

    pub closed spec fn spec_allowed(&self) -> Option<u16> {
        self.allowed_categories
    }

    /// A filter that lets every hit through.
    pub fn new() -> (r: b2RayCastFilter)
        ensures
            r.spec_excluded() == Set::<Entity>::empty(),
            r.spec_allowed() is None,
    {
        b2RayCastFilter { excluded_bodies: HashSet::new(), allowed_categories: None }
    }

    pub fn filter_body(body: Entity) -> (r: b2RayCastFilter)
        ensures
            r.spec_excluded() == set![body],
            r.spec_allowed() is None,
    {
        let r = b2RayCastFilter::new().add_body(body);
        assert(r.spec_excluded() =~= set![body]);
        r
    }

    pub fn filter_bodies(bodies: Vec<Entity>) -> (r: b2RayCastFilter)
        ensures
            r.spec_excluded() == bodies@.to_set(),
            r.spec_allowed() is None,
    {
        let r = b2RayCastFilter::new().add_bodies(bodies);
        assert(r.spec_excluded() =~= bodies@.to_set());
        r
    }

    pub fn allow_categories(allowed_categories: u16) -> (r: b2RayCastFilter)
        ensures
            r.spec_excluded() == Set::<Entity>::empty(),
            r.spec_allowed() == Some(allowed_categories),
    {
        b2RayCastFilter::new().add_allowed_categories(allowed_categories)
    }

    /// Also leaves out hits on `body`.
    pub fn add_body(self, body: Entity) -> (r: b2RayCastFilter)
        ensures
            r.spec_excluded() == self.spec_excluded().insert(body),
            r.spec_allowed() == self.spec_allowed(),
    {
        let mut r = self;
        r.excluded_bodies.insert(body);
        r
    }

    /// Also leaves out hits on each of `bodies`.
    pub fn add_bodies(self, bodies: Vec<Entity>) -> (r: b2RayCastFilter)
        ensures
            r.spec_excluded() == self.spec_excluded().union(bodies@.to_set()),
            r.spec_allowed() == self.spec_allowed(),
    {
        let mut r = self;
        let mut i: usize = 0;
        while i < bodies.len()
            invariant
                i <= bodies.len(),
                r.excluded_bodies@ == self.excluded_bodies@.union(bodies@.subrange(0, i as int).to_set()),
                r.allowed_categories == self.allowed_categories,
            decreases bodies.len() - i,
        {
            r.excluded_bodies.insert(bodies[i]);
            proof {
                assert(bodies@.subrange(0, i + 1) =~= bodies@.subrange(0, i as int).push(bodies@[i as int]));
                bodies@.subrange(0, i as int).lemma_push_to_set_commute(bodies@[i as int]);
            }
            i += 1;
            assert(r.excluded_bodies@ =~= self.excluded_bodies@.union(bodies@.subrange(0, i as int).to_set()));
        }
        assert(bodies@.subrange(0, bodies@.len() as int) =~= bodies@);
        r
    }

    /// Widens the category mask by `allowed_categories`; the first call sets it.
    pub fn add_allowed_categories(self, allowed_categories: u16) -> (r: b2RayCastFilter)
        ensures
            r.spec_excluded() == self.spec_excluded(),
            r.spec_allowed() == Some(
                match self.spec_allowed() {
                    Some(current) => current | allowed_categories,
                    None => allowed_categories,
                },
            ),
    {
        let mut r = self;
        r.allowed_categories = Some(
            match r.allowed_categories {
                Some(current) => current | allowed_categories,
                None => allowed_categories,
            },
        );
        r
    }

    /// Whether a hit on `body_entity`, by a fixture of the given categories,
    /// may be used.
    pub fn should_use(&self, body_entity: Entity, category_bits: u16) -> (r: bool)
        ensures
            r == passes(*self, body_entity, category_bits),
    {
        if self.excluded_bodies.contains(&body_entity) {
            return false;
        }
        match self.allowed_categories {
            Some(allowed) => allowed & category_bits != 0,
            None => true,
        }
    }
}

/// The filter's rule: the body is not excluded, and if a category mask is
/// set the fixture shares at least one category with it.
pub open spec fn passes(f: b2RayCastFilter, body: Entity, category_bits: u16) -> bool {
    &&& !f.spec_excluded().contains(body)
    &&& match f.spec_allowed() {
        Some(allowed) => allowed & category_bits != 0,
        None => true,
    }
}

pub open spec fn accepts(f: b2RayCastFilter) -> spec_fn(RayReport) -> bool {
    |h: RayReport| passes(f, h.body_entity, h.category_bits)
}

/// The hit with the smallest fraction; among equal fractions, the first.
pub open spec fn closest_of(s: Seq<RayReport>) -> Option<RayReport>
    decreases s.len(),
{
    if s.len() == 0 {
        None
    } else {
        match closest_of(s.drop_last()) {
            None => Some(s.last()),
            Some(best) => if s.last().fraction_bits < best.fraction_bits {
                Some(s.last())
            } else {
                Some(best)
            },
        }
    }
}

/// The first hit reported.
pub open spec fn first_of(s: Seq<RayReport>) -> Option<RayReport> {
    if s.len() == 0 {
        None
    } else {
        Some(s[0])
    }
}

pub open spec fn option_seq(o: Option<RayReport>) -> Seq<RayReport> {
    match o {
        Some(h) => seq![h],
        None => Seq::empty(),
    }
}

/// Keeps the hit nearest to the ray's start.
#[allow(non_camel_case_types)]
pub struct b2RayCastClosest {
    result: Option<RayReport>,
    reports: Ghost<Seq<RayReport>>,
}

impl b2RayCastClosest {
    /// The hits reported to this callback so far.
    pub closed spec fn spec_reports(&self) -> Seq<RayReport> {
        self.reports@
    }

    pub closed spec fn wf(&self) -> bool {
        self.result == closest_of(self.reports@)
    }

    pub fn new() -> (r: b2RayCastClosest)
        ensures
            r.wf(),
            r.spec_reports() == Seq::<RayReport>::empty(),
    {
        b2RayCastClosest { result: None, reports: Ghost(Seq::empty()) }
    }

    /// Records a hit and answers with the smallest fraction seen so far, so
    /// that the engine need not look beyond it.
    pub fn report_fixture(&mut self, hit: RayReport) -> (r: RayControl)
        requires
            old(self).wf(),
        ensures
            final(self).wf(),
            final(self).spec_reports() == old(self).spec_reports().push(hit),
            closest_of(final(self).spec_reports()) matches Some(best) && r == RayControl::Clip(
                best.fraction_bits,
            ),
    {
        let ghost s = self.reports@.push(hit);
        assert(s.drop_last() =~= self.reports@);
        let best = match self.result {
            Some(current) => if hit.fraction_bits < current.fraction_bits {
                hit
            } else {
                current
            },
            None => hit,
        };
        self.result = Some(best);
        self.reports = Ghost(s);
        RayControl::Clip(best.fraction_bits)
    }

    pub fn into_result(self) -> (r: Option<RayReport>)
        requires
            self.wf(),
        ensures
            r == closest_of(self.spec_reports()),
    {
        self.result
    }
}

/// Keeps the first hit and stops the cast.
#[allow(non_camel_case_types)]
pub struct b2RayCastAny {
    result: Option<RayReport>,
    reports: Ghost<Seq<RayReport>>,
}

impl b2RayCastAny {
    pub closed spec fn spec_reports(&self) -> Seq<RayReport> {
        self.reports@
    }

    pub closed spec fn wf(&self) -> bool {
        self.result == first_of(self.reports@)
    }

    pub fn new() -> (r: b2RayCastAny)
        ensures
            r.wf(),
            r.spec_reports() == Seq::<RayReport>::empty(),
    {
        b2RayCastAny { result: None, reports: Ghost(Seq::empty()) }
    }

    pub fn report_fixture(&mut self, hit: RayReport) -> (r: RayControl)
        requires
            old(self).wf(),
        ensures
            final(self).wf(),
            final(self).spec_reports() == old(self).spec_reports().push(hit),
            r == RayControl::Terminate,
    {
        let ghost s = self.reports@.push(hit);
        if self.result.is_none() {
            self.result = Some(hit);
        }
        self.reports = Ghost(s);
        RayControl::Terminate
    }

    pub fn into_result(self) -> (r: Option<RayReport>)
        requires
            self.wf(),
        ensures
            r == first_of(self.spec_reports()),
    {
        self.result
    }
}

/// Keeps every hit and lets the cast run over the whole ray.
#[allow(non_camel_case_types)]
pub struct b2RayCastAll {
    result: Vec<RayReport>,
}

impl b2RayCastAll {
    pub closed spec fn spec_reports(&self) -> Seq<RayReport> {
        self.result@
    }

    pub fn new() -> (r: b2RayCastAll)
        ensures
            r.spec_reports() == Seq::<RayReport>::empty(),
    {
        b2RayCastAll { result: Vec::new() }
    }

    pub fn report_fixture(&mut self, hit: RayReport) -> (r: RayControl)
        ensures
            final(self).spec_reports() == old(self).spec_reports().push(hit),
            r == RayControl::Continue,
    {
        self.result.push(hit);
        RayControl::Continue
    }

    pub fn into_result(self) -> (r: Vec<RayReport>)
        ensures
            r@ == self.spec_reports(),
    {
        self.result
    }
}

/// The three ray-cast policies.
pub enum RayCastCallback {
    Closest(b2RayCastClosest),
    Any(b2RayCastAny),
    All(b2RayCastAll),
}

#[derive(Clone, Copy, Debug, PartialEq, Eq, Structural)]
pub enum RayCastPolicy {
    Closest,
    Any,
    All,
}

/// What a policy returns after it was shown the hits `s`.
pub open spec fn policy_result(p: RayCastPolicy, s: Seq<RayReport>) -> Seq<RayReport> {
    match p {
        RayCastPolicy::Closest => option_seq(closest_of(s)),
        RayCastPolicy::Any => option_seq(first_of(s)),
        RayCastPolicy::All => s,
    }
}

impl RayCastCallback {
    pub open spec fn policy(&self) -> RayCastPolicy {
        match self {
            RayCastCallback::Closest(_) => RayCastPolicy::Closest,
            RayCastCallback::Any(_) => RayCastPolicy::Any,
            RayCastCallback::All(_) => RayCastPolicy::All,
        }
    }

    pub open spec fn spec_reports(&self) -> Seq<RayReport> {
        match self {
            RayCastCallback::Closest(c) => c.spec_reports(),
            RayCastCallback::Any(c) => c.spec_reports(),
            RayCastCallback::All(c) => c.spec_reports(),
        }
    }

    pub open spec fn wf(&self) -> bool {
        match self {
            RayCastCallback::Closest(c) => c.wf(),
            RayCastCallback::Any(c) => c.wf(),
            RayCastCallback::All(_) => true,
        }
    }

    /// A fresh callback of the given policy.
    pub fn new(policy: RayCastPolicy) -> (r: RayCastCallback)
        ensures
            r.wf(),
            r.policy() == policy,
            r.spec_reports() == Seq::<RayReport>::empty(),
    {
        match policy {
            RayCastPolicy::Closest => RayCastCallback::Closest(b2RayCastClosest::new()),
            RayCastPolicy::Any => RayCastCallback::Any(b2RayCastAny::new()),
            RayCastPolicy::All => RayCastCallback::All(b2RayCastAll::new()),
        }
    }
}

/// One ray cast in progress: a policy behind a filter.
#[allow(non_camel_case_types)]
pub struct b2RayCast {
    callback: RayCastCallback,
    filter: b2RayCastFilter,
    seen: Ghost<Seq<RayReport>>,
}

impl b2RayCast {
    /// Every hit the engine reported, filtered or not.
    pub closed spec fn spec_seen(&self) -> Seq<RayReport> {
        self.seen@
    }

    pub closed spec fn spec_filter(&self) -> b2RayCastFilter {
        self.filter
    }

    pub closed spec fn spec_policy(&self) -> RayCastPolicy {
        self.callback.policy()
    }

    pub closed spec fn wf(&self) -> bool {
        &&& self.callback.wf()
        &&& self.callback.spec_reports() == self.seen@.filter(accepts(self.filter))
    }

    pub fn new(callback: RayCastCallback, filter: b2RayCastFilter) -> (r: b2RayCast)
        requires
            callback.wf(),
            callback.spec_reports() == Seq::<RayReport>::empty(),
        ensures
            r.wf(),
            r.spec_seen() == Seq::<RayReport>::empty(),
            r.spec_filter() == filter,
            r.spec_policy() == callback.policy(),
    {
        let r = b2RayCast { callback, filter, seen: Ghost(Seq::empty()) };
        assert(r.seen@.filter(accepts(r.filter)) =~= Seq::<RayReport>::empty());
        r
    }

    /// Handles one hit reported by the engine: a hit that the filter drops is
    /// ignored and never reaches the policy.
    pub fn report_fixture(&mut self, hit: RayReport) -> (r: RayControl)
        requires
            old(self).wf(),
        ensures
            final(self).wf(),
            final(self).spec_seen() == old(self).spec_seen().push(hit),
            final(self).spec_filter() == old(self).spec_filter(),
            final(self).spec_policy() == old(self).spec_policy(),
            !passes(old(self).spec_filter(), hit.body_entity, hit.category_bits) ==> r
                == RayControl::Ignore,
            passes(old(self).spec_filter(), hit.body_entity, hit.category_bits) ==> r == match old(
                self,
            ).spec_policy() {
                RayCastPolicy::Closest => RayControl::Clip(
                    closest_of(final(self).spec_seen().filter(accepts(old(self).spec_filter()))).unwrap().fraction_bits,
                ),
                RayCastPolicy::Any => RayControl::Terminate,
                RayCastPolicy::All => RayControl::Continue,
            },
    {
        let ghost s = self.seen@.push(hit);
        proof {
            self.seen@.lemma_filter_push(hit, accepts(self.filter));
        }
        self.seen = Ghost(s);
        if !self.filter.should_use(hit.body_entity, hit.category_bits) {
            return RayControl::Ignore;
        }
        match &mut self.callback {
            RayCastCallback::Closest(c) => c.report_fixture(hit),
            RayCastCallback::Any(c) => c.report_fixture(hit),
            RayCastCallback::All(c) => c.report_fixture(hit),
        }
    }

    /// The hits the policy kept: at most one for Closest and Any, every
    /// accepted hit for All.
    pub fn extract_hits(self) -> (r: Vec<RayReport>)
        requires
            self.wf(),
        ensures
            r@ == policy_result(self.spec_policy(), self.spec_seen().filter(accepts(self.spec_filter()))),
    {
        match self.callback {
            RayCastCallback::Closest(c) => match c.into_result() {
                Some(h) => vec![h],
                None => Vec::new(),
            },
            RayCastCallback::Any(c) => match c.into_result() {
                Some(h) => vec![h],
                None => Vec::new(),
            },
            RayCastCallback::All(c) => c.into_result(),
        }
    }
}

/// The closest hit is one of the reported hits, and no reported hit lies
/// nearer to the ray's start.
pub proof fn lemma_closest_is_minimal(s: Seq<RayReport>)
    requires
        s.len() > 0,
    ensures
        closest_of(s) is Some,
        s.contains(closest_of(s).unwrap()),
        forall|i: int| 0 <= i < s.len() ==> closest_of(s).unwrap().fraction_bits <= #[trigger] s[i].fraction_bits,
    decreases s.len(),
{
    let t = s.drop_last();
    if t.len() == 0 {
        assert(s[0] == s.last());
    } else {
        lemma_closest_is_minimal(t);
        let best = closest_of(t).unwrap();
        let k = choose|k: int| 0 <= k < t.len() && t[k] == best;
        assert(s[k] == best);
        assert(s[s.len() - 1] == s.last());
        assert forall|i: int| 0 <= i < s.len() implies closest_of(s).unwrap().fraction_bits
            <= #[trigger] s[i].fraction_bits by {
            if i < s.len() - 1 {
                assert(s[i] == t[i]);
            }
        }
    }
}

/// Whatever a policy returns is among the hits it was shown.
pub proof fn lemma_policy_result_within(p: RayCastPolicy, s: Seq<RayReport>)
    ensures
        forall|h: RayReport| #[trigger] policy_result(p, s).contains(h) ==> s.contains(h),
{
    assert forall|h: RayReport| #[trigger] policy_result(p, s).contains(h) implies s.contains(h) by {
        match p {
            RayCastPolicy::Closest => {
                lemma_closest_is_minimal(s);
                assert(policy_result(p, s)[0] == h);
            },
            RayCastPolicy::Any => {
                assert(policy_result(p, s)[0] == h);
                assert(s[0] == h);
            },
            RayCastPolicy::All => {},
        }
    }
}

/// Under every policy, a hit that the filter drops (an excluded body, or a
/// fixture outside the allowed categories) is never in the result, and
/// every hit in the result was reported.
pub proof fn lemma_filter_applies_to_every_policy(
    p: RayCastPolicy,
    f: b2RayCastFilter,
    seen: Seq<RayReport>,
)
    ensures
        forall|h: RayReport| #[trigger]
            policy_result(p, seen.filter(accepts(f))).contains(h) ==> seen.contains(h) && passes(
                f,
                h.body_entity,
                h.category_bits,
            ),
{
    let s = seen.filter(accepts(f));
    lemma_policy_result_within(p, s);
    assert forall|h: RayReport| #[trigger] policy_result(p, s).contains(h) implies seen.contains(h)
        && passes(f, h.body_entity, h.category_bits) by {
        seen.lemma_filter_contains_rev(accepts(f), h);
        let i = choose|i: int| 0 <= i < s.len() && s[i] == h;
        seen.lemma_filter_pred(accepts(f), i);
    }
}

/// Under All, every hit that passes the filter is in the result.
pub proof fn lemma_all_keeps_every_accepted_hit(f: b2RayCastFilter, seen: Seq<RayReport>)
    ensures
        forall|i: int|
            0 <= i < seen.len() && passes(f, seen[i].body_entity, seen[i].category_bits)
                ==> #[trigger] policy_result(RayCastPolicy::All, seen.filter(accepts(f))).contains(
                seen[i],
            ),
{
    assert forall|i: int|
        0 <= i < seen.len() && passes(f, seen[i].body_entity, seen[i].category_bits)
            implies #[trigger] policy_result(RayCastPolicy::All, seen.filter(accepts(f))).contains(
            seen[i],
        ) by {
        seen.lemma_filter_contains(accepts(f), i);
    }
}

} // verus!
