//! Contact events: the native engine's begin/end notifications become
//! entity-keyed begin and end event streams once per step, and the pairs
//! currently touching become per-entity contact sets.
use vstd::prelude::*;

use crate::registry::Entity;
use crate::seqs::{contains_i32, contains_u64, lemma_push_no_duplicates};

verus! {

broadcast use vstd::seq_lib::group_seq_properties;

/// A touching pair of fixtures, with the bodies that own them.
#[allow(non_camel_case_types)]
#[derive(Clone, Copy, Debug, PartialEq, Eq, Structural)]
pub struct b2Contact {
    pub fixture_a: Entity,
    pub body_a: Entity,
    pub fixture_b: Entity,
    pub body_b: Entity,
}

/// `s` with `c` appended unless it is already there.
pub open spec fn add_once(s: Seq<b2Contact>, c: b2Contact) -> Seq<b2Contact> {
    if s.contains(c) {
        s
    } else {
        s.push(c)
    }
}

pub open spec fn other_than(c: b2Contact) -> spec_fn(b2Contact) -> bool {
    |x: b2Contact| x != c
}

/// What the listener has gathered: the pairs touching now, and those that
/// began and ended touching during the current step.
pub struct ListenerView {
    pub touching: Seq<b2Contact>,
    pub begun: Seq<b2Contact>,
    pub ended: Seq<b2Contact>,
}

impl ListenerView {
    pub open spec fn wf(self) -> bool {
        &&& self.touching.no_duplicates()
        &&& self.begun.no_duplicates()
        &&& self.ended.no_duplicates()
    }

    pub open spec fn began(self, c: b2Contact) -> ListenerView {
        ListenerView {
            touching: add_once(self.touching, c),
            begun: add_once(self.begun, c),
            ended: self.ended,
        }
    }

    pub open spec fn stopped(self, c: b2Contact) -> ListenerView {
        ListenerView {
            touching: self.touching.filter(other_than(c)),
            begun: self.begun,
            ended: add_once(self.ended, c),
        }
    }

    /// A pair that began this step is reported if it still touches, or if
    /// it ended within the same step. A pair that began but is in neither
    /// list (its fixture vanished without an end notice) is dropped: no end
    /// event would ever match its begin event.
    pub open spec fn reportable(self) -> spec_fn(b2Contact) -> bool {
        |x: b2Contact| self.touching.contains(x) || self.ended.contains(x)
    }

    pub open spec fn begin_events(self) -> Seq<b2Contact> {
        self.begun.filter(self.reportable())
    }

    pub open spec fn end_events(self) -> Seq<b2Contact> {
        self.ended
    }

    /// The state after the step's events went out: what touches persists.
    pub open spec fn flushed(self) -> ListenerView {
        ListenerView { touching: self.touching, begun: Seq::empty(), ended: Seq::empty() }
    }
}

/// The begin and end event queues that consumers drain once per frame.
pub struct ContactEvents {
    pub begin: Vec<b2Contact>,
    pub end: Vec<b2Contact>,
}

impl ContactEvents {
    pub fn new() -> (r: ContactEvents)
        ensures
            r.begin@ == Seq::<b2Contact>::empty(),
            r.end@ == Seq::<b2Contact>::empty(),
    {
        ContactEvents { begin: Vec::new(), end: Vec::new() }
    }

    /// Drops the previous step's events.
    pub fn clear(&mut self)
        ensures
            final(self).begin@ == Seq::<b2Contact>::empty(),
            final(self).end@ == Seq::<b2Contact>::empty(),
    {
        self.begin.clear();
        self.end.clear();
    }
}

fn contains_contact(v: &Vec<b2Contact>, c: b2Contact) -> (r: bool)
    ensures
        r == v@.contains(c),
{
    let mut i: usize = 0;
    while i < v.len()
        invariant
            i <= v.len(),
            forall|k: int| 0 <= k < i ==> v@[k] != c,
        decreases v.len() - i,
    {
        if v[i] == c {
            assert(v@[i as int] == c);
            return true;
        }
        i += 1;
    }
    false
}

proof fn lemma_add_once_no_duplicates(s: Seq<b2Contact>, c: b2Contact)
    requires
        s.no_duplicates(),
    ensures
        add_once(s, c).no_duplicates(),
{
    if !s.contains(c) {
        lemma_push_no_duplicates(s, c);
    }
}

/// Filtering keeps a sequence free of duplicates.
pub proof fn lemma_filter_no_duplicates(s: Seq<b2Contact>, p: spec_fn(b2Contact) -> bool)
    requires
        s.no_duplicates(),
    ensures
        s.filter(p).no_duplicates(),
    decreases s.len(),
{
    if s.len() > 0 {
        let t = s.drop_last();
        let x = s.last();
        assert(t.no_duplicates()) by {
            assert forall|a: int, b: int| 0 <= a < b < t.len() implies t[a] != t[b] by {
                assert(t[a] == s[a] && t[b] == s[b]);
            }
        }
        lemma_filter_no_duplicates(t, p);
        assert(s =~= t.push(x));
        t.lemma_filter_push(x, p);
        if p(x) {
            assert(!t.contains(x)) by {
                if t.contains(x) {
                    let k = choose|k: int| 0 <= k < t.len() && t[k] == x;
                    assert(s[k] == s[s.len() - 1]);
                }
            }
            if t.filter(p).contains(x) {
                t.lemma_filter_contains_rev(p, x);
            }
            lemma_push_no_duplicates(t.filter(p), x);
        }
    }
}

/// Captures the native engine's contact notifications during a step.
pub struct ContactListener {
    touching: Vec<b2Contact>,
    begun: Vec<b2Contact>,
    ended: Vec<b2Contact>,
}

impl View for ContactListener {
    type V = ListenerView;

    closed spec fn view(&self) -> ListenerView {
        ListenerView { touching: self.touching@, begun: self.begun@, ended: self.ended@ }
    }
}

fn push_once(v: &mut Vec<b2Contact>, c: b2Contact)
    requires
        old(v)@.no_duplicates(),
    ensures
        final(v)@ == add_once(old(v)@, c),
        final(v)@.no_duplicates(),
{
    proof {
        lemma_add_once_no_duplicates(v@, c);
    }
    if !contains_contact(v, c) {
        v.push(c);
    }
}

impl ContactListener {
    pub fn new() -> (r: ContactListener)
        ensures
            r@.wf(),
            r@.touching == Seq::<b2Contact>::empty(),
            r@.begun == Seq::<b2Contact>::empty(),
            r@.ended == Seq::<b2Contact>::empty(),
    {
        ContactListener { touching: Vec::new(), begun: Vec::new(), ended: Vec::new() }
    }

    /// The native engine reports that a pair started touching.
    pub fn begin_contact(&mut self, c: b2Contact)
        requires
            old(self)@.wf(),
        ensures
            final(self)@.wf(),
            final(self)@ == old(self)@.began(c),
    {
        push_once(&mut self.touching, c);
        push_once(&mut self.begun, c);
    }

    /// The native engine reports that a pair stopped touching.
    pub fn end_contact(&mut self, c: b2Contact)
        requires
            old(self)@.wf(),
        ensures
            final(self)@.wf(),
            final(self)@ == old(self)@.stopped(c),
    {
        let mut kept: Vec<b2Contact> = Vec::new();
        let mut i: usize = 0;
        while i < self.touching.len()
            invariant
                i <= self.touching.len(),
                kept@ == self.touching@.subrange(0, i as int).filter(other_than(c)),
            decreases self.touching.len() - i,
        {
            let x = self.touching[i];
            proof {
                assert(self.touching@.subrange(0, i + 1) =~= self.touching@.subrange(
                    0,
                    i as int,
                ).push(x));
                self.touching@.subrange(0, i as int).lemma_filter_push(x, other_than(c));
            }
            if x != c {
                kept.push(x);
            }
            i += 1;
        }
        proof {
            assert(self.touching@.subrange(0, self.touching@.len() as int) =~= self.touching@);
            lemma_filter_no_duplicates(self.touching@, other_than(c));
        }
        self.touching = kept;
        push_once(&mut self.ended, c);
    }

    /// The pairs touching after the last step.
    pub fn touching(&self) -> (r: &Vec<b2Contact>)
        ensures
            r@ == self@.touching,
    {
        &self.touching
    }

    /// Emits the step's events into `events` and forgets which pairs began
    /// and ended; the touching pairs persist.
    pub fn send_contact_events(&mut self, events: &mut ContactEvents)
        requires
            old(self)@.wf(),
        ensures
            final(self)@.wf(),
            final(self)@ == old(self)@.flushed(),
            final(events).begin@ == old(events).begin@ + old(self)@.begin_events(),
            final(events).end@ == old(events).end@ + old(self)@.end_events(),
    {
        let ghost v = self@;
        let ghost b0 = events.begin@;
        let mut i: usize = 0;
        while i < self.begun.len()
            invariant
                v == self@,
                i <= self.begun.len(),
                events.begin@ == b0 + self.begun@.subrange(0, i as int).filter(v.reportable()),
                events.end@ == old(events).end@,
            decreases self.begun.len() - i,
        {
            let c = self.begun[i];
            proof {
                assert(self.begun@.subrange(0, i + 1) =~= self.begun@.subrange(0, i as int).push(c));
                self.begun@.subrange(0, i as int).lemma_filter_push(c, v.reportable());
            }
            if contains_contact(&self.touching, c) || contains_contact(&self.ended, c) {
                events.begin.push(c);
                proof {
                    assert(events.begin@ =~= b0 + self.begun@.subrange(0, i + 1).filter(
                        v.reportable(),
                    ));
                }
            }
            i += 1;
        }
        proof {
            assert(self.begun@.subrange(0, self.begun@.len() as int) =~= self.begun@);
        }
        let mut k: usize = 0;
        while k < self.ended.len()
            invariant
                v == self@,
                k <= self.ended.len(),
                events.begin@ == b0 + v.begin_events(),
                events.end@ == old(events).end@ + self.ended@.subrange(0, k as int),
            decreases self.ended.len() - k,
        {
            events.end.push(self.ended[k]);
            proof {
                assert(events.end@ =~= old(events).end@ + self.ended@.subrange(0, k + 1));
            }
            k += 1;
        }
        proof {
            assert(self.ended@.subrange(0, self.ended@.len() as int) =~= self.ended@);
        }
        self.begun.clear();
        self.ended.clear();
        assert(self@ =~= v.flushed());
    }
}

/// The entity on the other side of `c` from `entity`: a fixture, or the
/// body owning it when `bodies` holds. `entity` may name either a fixture
/// or a body of one side.
pub open spec fn partner(c: b2Contact, entity: Entity, bodies: bool) -> Option<Entity> {
    if c.fixture_a == entity || c.body_a == entity {
        Some(
            if bodies {
                c.body_b
            } else {
                c.fixture_b
            },
        )
    } else if c.fixture_b == entity || c.body_b == entity {
        Some(
            if bodies {
                c.body_a
            } else {
                c.fixture_a
            },
        )
    } else {
        None
    }
}

/// `x` is on the other side of some contact of `entity`.
pub open spec fn in_contact_with(
    contacts: Seq<b2Contact>,
    entity: Entity,
    bodies: bool,
    x: Entity,
) -> bool {
    exists|i: int| 0 <= i < contacts.len() && #[trigger] partner(contacts[i], entity, bodies) == Some(x)
}

fn partners(entity: Entity, contacts: &Vec<b2Contact>, bodies: bool) -> (r: Vec<Entity>)
    ensures
        r@.no_duplicates(),
        forall|x: Entity| #[trigger] r@.contains(x) <==> in_contact_with(contacts@, entity, bodies, x),
{
    let mut r: Vec<Entity> = Vec::new();
    let mut i: usize = 0;
    while i < contacts.len()
        invariant
            i <= contacts.len(),
            r@.no_duplicates(),
            forall|x: Entity| #[trigger]
                r@.contains(x) <==> in_contact_with(contacts@.subrange(0, i as int), entity, bodies, x),
        decreases contacts.len() - i,
    {
        let c = contacts[i];
        let other: Option<Entity> = if c.fixture_a == entity || c.body_a == entity {
            Some(
                if bodies {
                    c.body_b
                } else {
                    c.fixture_b
                },
            )
        } else if c.fixture_b == entity || c.body_b == entity {
            Some(
                if bodies {
                    c.body_a
                } else {
                    c.fixture_a
                },
            )
        } else {
            None
        };
        let ghost r0 = r@;
        match other {
            Some(x) => {
                if !contains_u64(&r, x) {
                    proof {
                        lemma_push_no_duplicates(r0, x);
                    }
                    r.push(x);
                }
            },
            None => {},
        }
        proof {
            let pre = contacts@.subrange(0, i as int);
            let post = contacts@.subrange(0, i + 1);
            assert(partner(post[i as int], entity, bodies) == other);
            assert forall|x: Entity| #[trigger] r@.contains(x) <==> in_contact_with(
                post,
                entity,
                bodies,
                x,
            ) by {
                if in_contact_with(pre, entity, bodies, x) {
                    let k = choose|k: int| 0 <= k < pre.len() && #[trigger] partner(pre[k], entity, bodies) == Some(x);
                    assert(post[k] == pre[k]);
                }
                if in_contact_with(post, entity, bodies, x) {
                    let k = choose|k: int| 0 <= k < post.len() && #[trigger] partner(post[k], entity, bodies) == Some(x);
                    if k < i {
                        assert(post[k] == pre[k]);
                    }
                }
            }
        }
        i += 1;
    }
    assert(contacts@.subrange(0, contacts@.len() as int) =~= contacts@);
    r
}

/// The fixtures touching `entity` (a fixture, or a body through any of its
/// fixtures), each listed once.
pub fn fixtures_in_contact(entity: Entity, contacts: &Vec<b2Contact>) -> (r: Vec<Entity>)
    ensures
        r@.no_duplicates(),
        forall|x: Entity| #[trigger] r@.contains(x) <==> in_contact_with(contacts@, entity, false, x),
{
    partners(entity, contacts, false)
}

/// The bodies touching `entity` (a fixture, or a body through any of its
/// fixtures), each listed once.
pub fn bodies_in_contact(entity: Entity, contacts: &Vec<b2Contact>) -> (r: Vec<Entity>)
    ensures
        r@.no_duplicates(),
        forall|x: Entity| #[trigger] r@.contains(x) <==> in_contact_with(contacts@, entity, true, x),
{
    partners(entity, contacts, true)
}

/// A particle touching a fixture of a body.
#[derive(Clone, Copy, Debug, PartialEq, Eq, Structural)]
pub struct ParticleBodyContact {
    pub particle_index: i32,
    pub body: Entity,
    pub fixture: Entity,
}

pub open spec fn names(c: ParticleBodyContact, entity: Entity, index: i32) -> bool {
    (c.body == entity || c.fixture == entity) && c.particle_index == index
}

/// Some particle contact names `entity` as its body or fixture and `index`
/// as its particle.
pub open spec fn particle_touches(contacts: Seq<ParticleBodyContact>, entity: Entity, index: i32) -> bool {
    exists|i: int| 0 <= i < contacts.len() && names(#[trigger] contacts[i], entity, index)
}

/// The particles touching `entity` (a body or a fixture), each listed once.
pub fn particles_in_contact(entity: Entity, contacts: &Vec<ParticleBodyContact>) -> (r: Vec<i32>)
    ensures
        r@.no_duplicates(),
        forall|p: i32| #[trigger] r@.contains(p) <==> particle_touches(contacts@, entity, p),
{
    let mut r: Vec<i32> = Vec::new();
    let mut i: usize = 0;
    while i < contacts.len()
        invariant
            i <= contacts.len(),
            r@.no_duplicates(),
            forall|p: i32| #[trigger]
                r@.contains(p) <==> particle_touches(contacts@.subrange(0, i as int), entity, p),
        decreases contacts.len() - i,
    {
        let c = contacts[i];
        let ghost r0 = r@;
        if c.body == entity || c.fixture == entity {
            let found = contains_i32(&r, c.particle_index);
            if !found {
                proof {
                    lemma_push_no_duplicates(r0, c.particle_index);
                }
                r.push(c.particle_index);
            }
        }
        proof {
            let pre = contacts@.subrange(0, i as int);
            let post = contacts@.subrange(0, i + 1);
            assert(post[i as int] == c);
            assert forall|p: i32| #[trigger] r@.contains(p) <==> particle_touches(post, entity, p) by {
                if particle_touches(pre, entity, p) {
                    let k = choose|k: int|
                        0 <= k < pre.len() && names(#[trigger] pre[k], entity, p);
                    assert(post[k] == pre[k]);
                }
                if particle_touches(post, entity, p) {
                    let k = choose|k: int|
                        0 <= k < post.len() && names(#[trigger] post[k], entity, p);
                    if k < i {
                        assert(post[k] == pre[k]);
                    }
                }
            }
        }
        i += 1;
    }
    assert(contacts@.subrange(0, contacts@.len() as int) =~= contacts@);
    r
}

/// A pair that begins and ends within a single step yields exactly one
/// begin event and exactly one end event for that step, and is not among
/// the touching pairs once the events went out.
pub proof fn lemma_contact_within_one_step(l: ListenerView, c: b2Contact)
    requires
        l.wf(),
    ensures
        l.began(c).stopped(c).wf(),
        l.began(c).stopped(c).begin_events().to_multiset().count(c) == 1,
        l.began(c).stopped(c).end_events().to_multiset().count(c) == 1,
        !l.began(c).stopped(c).flushed().touching.contains(c),
{
    let l1 = l.began(c);
    let l2 = l1.stopped(c);
    lemma_add_once_no_duplicates(l.touching, c);
    lemma_add_once_no_duplicates(l.begun, c);
    lemma_add_once_no_duplicates(l.ended, c);
    lemma_filter_no_duplicates(l1.touching, other_than(c));
    assert(l2.ended.contains(c)) by {
        if !l.ended.contains(c) {
            assert(l.ended.push(c)[l.ended.len() as int] == c);
        }
    }
    assert(l2.begun.contains(c)) by {
        if !l.begun.contains(c) {
            assert(l.begun.push(c)[l.begun.len() as int] == c);
        }
    }
    let k = choose|k: int| 0 <= k < l2.begun.len() && l2.begun[k] == c;
    l2.begun.lemma_filter_contains(l2.reportable(), k);
    lemma_filter_no_duplicates(l2.begun, l2.reportable());
    lemma_count_of_unique(l2.begin_events(), c);
    lemma_count_of_unique(l2.end_events(), c);
    if l2.touching.contains(c) {
        let i = choose|i: int| 0 <= i < l2.touching.len() && l2.touching[i] == c;
        l1.touching.lemma_filter_pred(other_than(c), i);
    }
}

proof fn lemma_count_of_unique(s: Seq<b2Contact>, c: b2Contact)
    requires
        s.no_duplicates(),
        s.contains(c),
    ensures
        s.to_multiset().count(c) == 1,
{
    s.lemma_multiset_has_no_duplicates();
    broadcast use vstd::seq_lib::group_to_multiset_ensures;

    assert(s.to_multiset().count(c) > 0);
}

/// Flushing the step's contact changes twice in a row is the same as doing
/// it once: both times nothing is left of the begun and ended pairs, and
/// the touching pairs are untouched.
pub proof fn lemma_flush_is_idempotent(l: ListenerView)
    ensures
        l.flushed().flushed() == l.flushed(),
        l.flushed().begun.len() == 0 && l.flushed().ended.len() == 0,
        l.flushed().touching == l.touching,
        l.flushed().begin_events().len() == 0 && l.flushed().end_events().len() == 0,
{
    assert(l.flushed().begin_events() =~= Seq::<b2Contact>::empty()) by {
        reveal(Seq::filter);
    }
}

} // verus!
