use bevy_liquidfun::contacts::{
    b2Contact, bodies_in_contact, fixtures_in_contact, particles_in_contact, ContactEvents,
    ContactListener, ParticleBodyContact,
};
use bevy_liquidfun::query::b2QueryAABB;

fn pair(fa: u64, ba: u64, fb: u64, bb: u64) -> b2Contact {
    b2Contact { fixture_a: fa, body_a: ba, fixture_b: fb, body_b: bb }
}

#[test]
fn contact_within_one_step_yields_one_begin_and_one_end() {
    let mut l = ContactListener::new();
    let mut events = ContactEvents::new();
    let c = pair(10, 1, 20, 2);
    l.begin_contact(c);
    l.end_contact(c);
    l.send_contact_events(&mut events);
    assert_eq!(events.begin, vec![c]);
    assert_eq!(events.end, vec![c]);
    assert!(l.touching().is_empty());
    // The next step starts clean.
    events.clear();
    l.send_contact_events(&mut events);
    assert!(events.begin.is_empty() && events.end.is_empty());
}

#[test]
fn lasting_contact_begins_once_and_keeps_touching() {
    let mut l = ContactListener::new();
    let mut events = ContactEvents::new();
    let c = pair(10, 1, 20, 2);
    l.begin_contact(c);
    l.begin_contact(c);
    l.send_contact_events(&mut events);
    assert_eq!(events.begin, vec![c]);
    assert!(events.end.is_empty());
    assert_eq!(l.touching(), &vec![c]);
    events.clear();
    l.end_contact(c);
    l.send_contact_events(&mut events);
    assert!(events.begin.is_empty());
    assert_eq!(events.end, vec![c]);
    assert!(l.touching().is_empty());
}

#[test]
fn clearing_events_twice_leaves_them_empty() {
    let mut events = ContactEvents::new();
    events.begin.push(pair(1, 2, 3, 4));
    events.clear();
    assert!(events.begin.is_empty() && events.end.is_empty());
    events.clear();
    assert!(events.begin.is_empty() && events.end.is_empty());
}

#[test]
fn contact_sets_per_entity() {
    let contacts = vec![pair(10, 1, 20, 2), pair(11, 1, 30, 3), pair(20, 2, 31, 3)];
    let mut f = fixtures_in_contact(1, &contacts);
    f.sort();
    assert_eq!(f, vec![20, 30]);
    let mut b = bodies_in_contact(2, &contacts);
    b.sort();
    assert_eq!(b, vec![1, 3]);
    assert_eq!(fixtures_in_contact(31, &contacts), vec![20]);
    assert_eq!(bodies_in_contact(3, &contacts), vec![1, 2]);
    assert!(fixtures_in_contact(99, &contacts).is_empty());
}

#[test]
fn particle_contacts_per_entity() {
    let contacts = vec![
        ParticleBodyContact { particle_index: 4, body: 1, fixture: 10 },
        ParticleBodyContact { particle_index: 4, body: 1, fixture: 11 },
        ParticleBodyContact { particle_index: 7, body: 2, fixture: 20 },
    ];
    assert_eq!(particles_in_contact(1, &contacts), vec![4]);
    assert_eq!(particles_in_contact(20, &contacts), vec![7]);
    assert!(particles_in_contact(3, &contacts).is_empty());
}

#[test]
fn box_query_collects_reports() {
    let mut q = b2QueryAABB::new();
    assert!(q.report_fixture(5));
    assert!(q.report_fixture(6));
    assert_eq!(q.into_result(), vec![5, 6]);
}
