use bevy_liquidfun::ray_cast::{
    b2RayCast, b2RayCastAll, b2RayCastAny, b2RayCastClosest, b2RayCastFilter, RayCastCallback,
    RayCastPolicy, RayControl, RayReport,
};

fn hit(body: u64, fixture: u64, category: u16, fraction: f32, index: u64) -> RayReport {
    RayReport {
        body_entity: body,
        fixture_entity: fixture,
        category_bits: category,
        fraction_bits: fraction.to_bits(),
        index,
    }
}

fn cast(policy: RayCastPolicy, filter: b2RayCastFilter, hits: &[RayReport]) -> (Vec<RayControl>, Vec<RayReport>) {
    let mut ray = b2RayCast::new(RayCastCallback::new(policy), filter);
    let controls = hits.iter().map(|h| ray.report_fixture(*h)).collect();
    (controls, ray.extract_hits())
}

#[test]
fn closest_returns_nearer_of_two_overlapping_fixtures() {
    let far = hit(1, 11, 0x0001, 0.7, 0);
    let near = hit(2, 12, 0x0002, 0.3, 1);
    let (controls, result) = cast(RayCastPolicy::Closest, b2RayCastFilter::new(), &[far, near]);
    assert_eq!(result, vec![near]);
    assert_eq!(controls, vec![RayControl::Clip(0.7f32.to_bits()), RayControl::Clip(0.3f32.to_bits())]);
    // The same in the other report order.
    let (_, result) = cast(RayCastPolicy::Closest, b2RayCastFilter::new(), &[near, far]);
    assert_eq!(result, vec![near]);
}

#[test]
fn closest_keeps_first_of_equal_fractions() {
    let a = hit(1, 11, 1, 0.5, 0);
    let b = hit(2, 12, 1, 0.5, 1);
    let (_, result) = cast(RayCastPolicy::Closest, b2RayCastFilter::new(), &[a, b]);
    assert_eq!(result, vec![a]);
}

#[test]
fn all_returns_both_fixtures() {
    let far = hit(1, 11, 0x0001, 0.7, 0);
    let near = hit(2, 12, 0x0002, 0.3, 1);
    let (controls, result) = cast(RayCastPolicy::All, b2RayCastFilter::new(), &[far, near]);
    assert_eq!(result.len(), 2);
    assert!(result.contains(&far) && result.contains(&near));
    assert_eq!(controls, vec![RayControl::Continue, RayControl::Continue]);
}

#[test]
fn any_returns_first_hit_and_stops() {
    let far = hit(1, 11, 0x0001, 0.7, 0);
    let near = hit(2, 12, 0x0002, 0.3, 1);
    let (controls, result) = cast(RayCastPolicy::Any, b2RayCastFilter::new(), &[far, near]);
    assert_eq!(result, vec![far]);
    assert_eq!(controls[0], RayControl::Terminate);
}

#[test]
fn category_filter_removes_fixture_from_every_policy() {
    let far = hit(1, 11, 0x0001, 0.7, 0);
    let near = hit(2, 12, 0x0002, 0.3, 1);
    for policy in [RayCastPolicy::Closest, RayCastPolicy::Any, RayCastPolicy::All] {
        let (controls, result) = cast(policy, b2RayCastFilter::allow_categories(0x0001u16), &[far, near]);
        assert_eq!(result, vec![far], "{:?}", policy);
        assert_eq!(controls[1], RayControl::Ignore);
    }
}

#[test]
fn excluded_body_never_affects_closest() {
    let near = hit(2, 12, 1, 0.3, 0);
    let far = hit(1, 11, 1, 0.7, 1);
    let (controls, result) = cast(RayCastPolicy::Closest, b2RayCastFilter::filter_body(2), &[near, far]);
    assert_eq!(controls, vec![RayControl::Ignore, RayControl::Clip(0.7f32.to_bits())]);
    assert_eq!(result, vec![far]);
}

#[test]
fn no_hits_gives_empty_results() {
    for policy in [RayCastPolicy::Closest, RayCastPolicy::Any, RayCastPolicy::All] {
        let (_, result) = cast(policy, b2RayCastFilter::new(), &[]);
        assert!(result.is_empty());
    }
}

#[test]
fn filter_builders_combine() {
    let f = b2RayCastFilter::filter_bodies(vec![1, 2]).add_body(3).add_allowed_categories(0x0002u16);
    assert!(!f.should_use(1, 0x0002));
    assert!(!f.should_use(3, 0x0002));
    assert!(f.should_use(4, 0x0002));
    assert!(!f.should_use(4, 0x0001));
    let f = f.add_allowed_categories(0x0001u16);
    assert!(f.should_use(4, 0x0001));
    let f = b2RayCastFilter::new().add_bodies(vec![7]);
    assert!(!f.should_use(7, 0xFFFF));
    assert!(f.should_use(8, 0));
}

#[test]
fn policy_objects_work_alone() {
    let mut closest = b2RayCastClosest::new();
    closest.report_fixture(hit(1, 1, 1, 0.9, 0));
    closest.report_fixture(hit(2, 2, 1, 0.1, 1));
    assert_eq!(closest.into_result().map(|h| h.fixture_entity), Some(2));
    let mut any = b2RayCastAny::new();
    assert_eq!(any.report_fixture(hit(1, 1, 1, 0.9, 0)), RayControl::Terminate);
    any.report_fixture(hit(2, 2, 1, 0.1, 1));
    assert_eq!(any.into_result().map(|h| h.fixture_entity), Some(1));
    let mut all = b2RayCastAll::new();
    all.report_fixture(hit(1, 1, 1, 0.9, 0));
    assert_eq!(all.into_result().len(), 1);
}
