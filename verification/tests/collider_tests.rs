use rust_physics_sim::collider::{
    clip_segment, collision_pairs, contact_manifold, least_overlap_axis, should_test_pair,
    ContactFlags, Side,
};

type P = (f32, f32);

fn sub(a: P, b: P) -> P {
    (a.0 - b.0, a.1 - b.1)
}

fn dot(a: P, b: P) -> f32 {
    a.0 * b.0 + a.1 * b.1
}

fn classify(d: f32) -> Side {
    if d < 0.0 {
        Side::Below
    } else if d > 0.0 {
        Side::Above
    } else if d == 0.0 {
        Side::On
    } else {
        Side::Unordered
    }
}

fn side(p: P, plane_pt: P, n: P) -> Side {
    classify(dot(sub(p, plane_pt), n))
}

fn crossing(a: P, b: P, plane_pt: P, n: P) -> P {
    let da = dot(sub(a, plane_pt), n);
    let db = dot(sub(b, plane_pt), n);
    let t = da / (da - db);
    (a.0 + (b.0 - a.0) * t, a.1 + (b.1 - a.1) * t)
}

fn unit_edge(v0: P, v1: P) -> Option<P> {
    let e = sub(v1, v0);
    let len = dot(e, e).sqrt();
    if len < f32::EPSILON {
        None
    } else {
        Some((e.0 / len, e.1 / len))
    }
}

fn negate(p: P) -> P {
    (-p.0, -p.1)
}

const MOVING: ContactFlags = ContactFlags { can_collide: true, is_static: false };
const STATIC: ContactFlags = ContactFlags { can_collide: true, is_static: true };
const GHOST: ContactFlags = ContactFlags { can_collide: false, is_static: false };

#[test]
fn clip_keeps_segment_in_front() {
    let r = clip_segment((0.0, 1.0), (2.0, 3.0), (0.0, 0.0), (0.0, 1.0), &side, &crossing);
    assert_eq!(r, Some(((0.0, 1.0), (2.0, 3.0))));
}

#[test]
fn clip_drops_segment_behind() {
    let r = clip_segment((0.0, -1.0), (2.0, -3.0), (0.0, 0.0), (0.0, 1.0), &side, &crossing);
    assert_eq!(r, None);
}

#[test]
fn clip_cuts_first_end_behind() {
    let r = clip_segment((0.0, -1.0), (0.0, 3.0), (0.0, 0.0), (0.0, 1.0), &side, &crossing);
    assert_eq!(r, Some(((0.0, 0.0), (0.0, 3.0))));
}

#[test]
fn clip_cuts_second_end_behind() {
    let r = clip_segment((2.0, 2.0), (2.0, -2.0), (0.0, 0.0), (0.0, 1.0), &side, &crossing);
    assert_eq!(r, Some(((2.0, 2.0), (2.0, 0.0))));
}

#[test]
fn clip_keeps_end_on_the_line() {
    let r = clip_segment((1.0, 0.0), (1.0, 5.0), (0.0, 0.0), (0.0, 1.0), &side, &crossing);
    assert_eq!(r, Some(((1.0, 0.0), (1.0, 5.0))));
}

#[test]
fn manifold_of_overlapping_edges() {
    // Reference face from (0,0) to (4,0), normal pointing up (out of the reference body).
    // Incident edge slightly below it, wider than it.
    let c = contact_manifold(
        (0.0, 0.0),
        (4.0, 0.0),
        (0.0, 1.0),
        (-1.0, -0.5),
        (5.0, -0.5),
        &side,
        &crossing,
        &unit_edge,
        &negate,
    );
    assert_eq!(c, vec![(0.0, -0.5), (4.0, -0.5)]);
}

#[test]
fn manifold_keeps_only_points_below_face() {
    let c = contact_manifold(
        (0.0, 0.0),
        (4.0, 0.0),
        (0.0, 1.0),
        (1.0, -1.0),
        (3.0, 1.0),
        &side,
        &crossing,
        &unit_edge,
        &negate,
    );
    assert_eq!(c, vec![(1.0, -1.0)]);
}

#[test]
fn manifold_of_degenerate_face_is_empty() {
    let c = contact_manifold(
        (1.0, 1.0),
        (1.0, 1.0),
        (0.0, 1.0),
        (0.0, 0.0),
        (2.0, 0.0),
        &side,
        &crossing,
        &unit_edge,
        &negate,
    );
    assert!(c.is_empty());
}

#[test]
fn manifold_of_edge_beyond_face_is_empty() {
    let c = contact_manifold(
        (0.0, 0.0),
        (4.0, 0.0),
        (0.0, 1.0),
        (6.0, -1.0),
        (8.0, -1.0),
        &side,
        &crossing,
        &unit_edge,
        &negate,
    );
    assert!(c.is_empty());
}

#[test]
fn pair_rule() {
    assert!(should_test_pair(&MOVING, &MOVING));
    assert!(should_test_pair(&MOVING, &STATIC));
    assert!(should_test_pair(&STATIC, &MOVING));
    assert!(!should_test_pair(&STATIC, &STATIC));
    assert!(!should_test_pair(&GHOST, &MOVING));
    assert!(!should_test_pair(&MOVING, &GHOST));
}

#[test]
fn pairs_of_moving_bodies_in_order() {
    assert_eq!(
        collision_pairs(&[MOVING, MOVING, MOVING]),
        vec![(0, 1), (0, 2), (1, 2)]
    );
}

#[test]
fn pairs_skip_static_pairs_and_ghosts() {
    assert_eq!(
        collision_pairs(&[STATIC, MOVING, STATIC, GHOST, MOVING]),
        vec![(0, 1), (0, 4), (1, 2), (1, 4), (2, 4)]
    );
}

#[test]
fn pairs_of_few_bodies() {
    assert_eq!(collision_pairs(&[]), vec![]);
    assert_eq!(collision_pairs(&[MOVING]), vec![]);
    assert_eq!(collision_pairs(&[STATIC, STATIC]), vec![]);
}

#[test]
fn sat_separated_when_any_axis_separates() {
    assert_eq!(least_overlap_axis(&[Some(Some(3)), None, Some(Some(1))], 100), None);
    assert_eq!(least_overlap_axis(&[Some(Some(3)), Some(Some(1)), None], 100), None);
}

#[test]
fn sat_picks_first_least_overlap() {
    assert_eq!(
        least_overlap_axis(&[Some(Some(5)), Some(Some(2)), Some(Some(7)), Some(Some(2))], 100),
        Some(Some(1))
    );
}

#[test]
fn sat_ignores_unordered_and_unbounded_overlaps() {
    assert_eq!(least_overlap_axis(&[Some(None), Some(Some(100)), Some(Some(9))], 100), Some(Some(2)));
    assert_eq!(least_overlap_axis(&[Some(None), Some(Some(100))], 100), Some(None));
    assert_eq!(least_overlap_axis(&[], 100), Some(None));
}

#[test]
fn sat_with_float_overlaps() {
    let overlaps: [f32; 4] = [2.5, 0.75, 1.0, f32::INFINITY];
    let keys: Vec<Option<Option<u32>>> = overlaps.iter().map(|o| Some(Some(o.to_bits()))).collect();
    assert_eq!(least_overlap_axis(&keys, f32::INFINITY.to_bits()), Some(Some(1)));
}
