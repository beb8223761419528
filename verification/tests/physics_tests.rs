use oxide_engine_core::collision_layer::{
    CollisionLayers, ALL, DEBRIS, DEFAULT, ENEMY, PLAYER, PROJECTILE, STATIC, TRIGGER,
};
use oxide_engine_core::events::{generate_collision_events, CollisionEvent, CollisionEvents, ManifoldRecord};
use oxide_engine_core::world_ids::PhysicsWorldIds;
use oxide_engine_core::physics::{BodyId, ColliderId, ContactId, ManifoldKey, RigidBodyType};


#[test]
fn contact_id_is_order_independent() {
    let id1 = ContactId::from_features(1, 2);
    let id2 = ContactId::from_features(2, 1);
    assert_eq!(id1, id2, "contact ID should be order-independent");
}

#[test]
fn contact_id_packs_smaller_feature_high() {
    assert_eq!(ContactId::from_features(1, 2), ContactId((1 << 16) | 2));
    assert_eq!(ContactId::from_features(7, 7), ContactId((7 << 16) | 7));
    assert_eq!(ContactId::from_features(0xffff, 0), ContactId(0xffff));
    assert_ne!(ContactId::from_features(1, 2), ContactId::from_features(1, 3));
}

#[test]
fn manifold_key_orders_colliders() {
    let a = ManifoldKey::new(ColliderId(9), ColliderId(3));
    let b = ManifoldKey::new(ColliderId(3), ColliderId(9));
    assert_eq!(a, b);
    assert_eq!(a.collider_a, ColliderId(3));
    assert_eq!(a.collider_b, ColliderId(9));
}

#[test]
fn collision_layers_default_collides_with_everything() {
    let layers = CollisionLayers::default();
    assert_eq!(layers.group, DEFAULT);
    assert_eq!(layers.mask, ALL);
    assert!(layers.can_collide_with(&CollisionLayers::in_layer(DEBRIS)));
}

#[test]
fn collision_layers_filter_both_ways() {
    let player = CollisionLayers::new(PLAYER, ENEMY | STATIC);
    let enemy = CollisionLayers::new(ENEMY, PLAYER | PROJECTILE);
    let trigger = CollisionLayers::new(TRIGGER, PLAYER);
    assert!(player.can_collide_with(&enemy));
    assert!(enemy.can_collide_with(&player));
    // the trigger accepts the player, but the player does not accept triggers
    assert!(!player.can_collide_with(&trigger));
    assert!(!trigger.can_collide_with(&player));
    let narrowed = CollisionLayers::in_layer(PLAYER).collides_with(STATIC);
    assert_eq!(narrowed.group, PLAYER);
    assert_eq!(narrowed.mask, STATIC);
}

#[test]
fn rigid_body_types_are_distinct() {
    assert_ne!(RigidBodyType::Dynamic, RigidBodyType::Static);
    assert_ne!(RigidBodyType::KinematicPositionBased, RigidBodyType::KinematicVelocityBased);
}

#[test]
fn collision_event_bodies() {
    let event = CollisionEvent::<u8>::Started {
        body_a: BodyId(1),
        body_b: BodyId(2),
        collider_a: ColliderId(1),
        collider_b: ColliderId(2),
        contacts: vec![],
    };

    let (a, b) = event.bodies();
    assert_eq!(a, BodyId(1));
    assert_eq!(b, BodyId(2));
}

#[test]
fn collision_event_is_start() {
    let start = CollisionEvent::<u8>::Started {
        body_a: BodyId(1),
        body_b: BodyId(2),
        collider_a: ColliderId(1),
        collider_b: ColliderId(2),
        contacts: vec![],
    };
    assert!(start.is_start());

    let ended = CollisionEvent::<u8>::Ended {
        body_a: BodyId(1),
        body_b: BodyId(2),
        collider_a: ColliderId(1),
        collider_b: ColliderId(2),
    };
    assert!(!ended.is_start());
    assert!(ended.is_end());
    assert_eq!(ended.colliders(), (ColliderId(1), ColliderId(2)));
}

#[test]
fn events_buffer_push_and_drain() {
    let mut events = CollisionEvents::<u8>::new();

    events.push(CollisionEvent::Ended {
        body_a: BodyId(1),
        body_b: BodyId(2),
        collider_a: ColliderId(1),
        collider_b: ColliderId(2),
    });

    assert_eq!(events.len(), 1);

    let drained: Vec<_> = events.drain();
    assert_eq!(drained.len(), 1);
    assert!(events.is_empty());
}

#[test]
fn ended_events_preserve_body_ids_from_previous_frame() {
    let mut events = CollisionEvents::<u8>::new();
    events.record_active(ColliderId(11), ColliderId(22), BodyId(5), BodyId(6));

    // an empty physics world has no contact manifolds
    generate_collision_events(Vec::new(), &mut events);

    let drained: Vec<_> = events.drain();
    assert_eq!(drained.len(), 1, "expected a single ended event");

    match &drained[0] {
        CollisionEvent::Ended {
            body_a,
            body_b,
            collider_a,
            collider_b,
        } => {
            assert_eq!(*body_a, BodyId(5));
            assert_eq!(*body_b, BodyId(6));
            assert_eq!(*collider_a, ColliderId(11));
            assert_eq!(*collider_b, ColliderId(22));
        }
        _ => panic!("expected ended collision event"),
    }
}

fn manifold(a: u64, b: u64, body_a: u64, body_b: u64, contacts: Vec<u8>) -> ManifoldRecord<u8> {
    ManifoldRecord {
        key: ManifoldKey::new(ColliderId(a), ColliderId(b)),
        body_a: BodyId(body_a),
        body_b: BodyId(body_b),
        contacts,
    }
}

#[test]
fn collision_starts_then_persists_then_ends() {
    let mut events = CollisionEvents::<u8>::new();

    generate_collision_events(vec![manifold(1, 2, 10, 20, vec![7])], &mut events);
    let first = events.drain();
    assert_eq!(first.len(), 1);
    assert!(first[0].is_start());
    assert!(events.was_active(ColliderId(2), ColliderId(1)));

    generate_collision_events(vec![manifold(1, 2, 10, 20, vec![8, 9])], &mut events);
    let second = events.drain();
    assert_eq!(second.len(), 1);
    match &second[0] {
        CollisionEvent::Persisted { contacts, .. } => assert_eq!(contacts, &vec![8, 9]),
        _ => panic!("expected persisted event"),
    }

    generate_collision_events(Vec::new(), &mut events);
    let third = events.drain();
    assert_eq!(third.len(), 1);
    assert!(third[0].is_end());
    assert_eq!(third[0].bodies(), (BodyId(10), BodyId(20)));
    assert!(!events.was_active(ColliderId(1), ColliderId(2)));
}

#[test]
fn manifolds_without_contacts_produce_no_event() {
    let mut events = CollisionEvents::<u8>::new();
    generate_collision_events(vec![manifold(3, 4, 1, 2, vec![])], &mut events);
    assert!(events.is_empty());
    assert!(!events.was_active(ColliderId(3), ColliderId(4)));
}

#[test]
fn record_active_replaces_bodies_and_clear_active_forgets() {
    let mut events = CollisionEvents::<u8>::new();
    events.record_active(ColliderId(2), ColliderId(1), BodyId(1), BodyId(2));
    events.record_active(ColliderId(1), ColliderId(2), BodyId(3), BodyId(4));
    let active = events.take_active();
    assert_eq!(active, vec![((ColliderId(1), ColliderId(2)), (BodyId(3), BodyId(4)))]);
    assert!(!events.was_active(ColliderId(1), ColliderId(2)));

    events.record_active(ColliderId(5), ColliderId(6), BodyId(1), BodyId(2));
    events.clear_active();
    assert!(!events.was_active(ColliderId(5), ColliderId(6)));
}

#[test]
fn clear_removes_pending_events() {
    let mut events = CollisionEvents::<u8>::new();
    events.push(CollisionEvent::Ended {
        body_a: BodyId(1),
        body_b: BodyId(2),
        collider_a: ColliderId(1),
        collider_b: ColliderId(2),
    });
    assert_eq!(events.events().len(), 1);
    events.clear();
    assert!(events.is_empty());
}

use oxide_engine_core::broadphase::{
    candidate_pair, layers_allow, may_pair, spatial_hash_stats, unique_candidate_pairs, ProxyFlags,
};

fn proxy(collider: u64, body: u64, is_dynamic: bool, is_sensor: bool) -> ProxyFlags {
    ProxyFlags { collider_id: ColliderId(collider), body_id: BodyId(body), is_dynamic, is_sensor }
}

#[test]
fn static_static_proxies_never_pair() {
    let a = proxy(1, 1, false, false);
    let b = proxy(2, 2, false, false);
    assert!(!may_pair(&a, &b));
    assert_eq!(candidate_pair(&a, &b, true), None);
}

#[test]
fn static_sensor_pairs_generate_candidates() {
    let sensor = proxy(4, 1, false, true);
    let wall = proxy(2, 2, false, false);
    assert_eq!(candidate_pair(&sensor, &wall, true), Some((ColliderId(2), ColliderId(4))));
    assert_eq!(candidate_pair(&wall, &sensor, true), Some((ColliderId(2), ColliderId(4))));
}

#[test]
fn candidates_need_overlap_and_distinct_bodies() {
    let a = proxy(1, 7, true, false);
    let b = proxy(2, 7, true, false);
    let c = proxy(3, 8, false, false);
    assert_eq!(candidate_pair(&a, &b, true), None);
    assert_eq!(candidate_pair(&a, &c, false), None);
    assert_eq!(candidate_pair(&c, &a, true), Some((ColliderId(1), ColliderId(3))));
}

#[test]
fn layer_filtering_applies_only_when_both_are_known() {
    let player = Some(CollisionLayers::new(PLAYER, ENEMY));
    let debris = Some(CollisionLayers::new(DEBRIS, DEBRIS));
    assert!(!layers_allow(&player, &debris));
    assert!(layers_allow(&player, &None));
    assert!(layers_allow(&None, &None));
    assert!(layers_allow(&player, &Some(CollisionLayers::new(ENEMY, PLAYER))));
}

#[test]
fn spatial_hash_stats_sum_and_max() {
    let stats = spatial_hash_stats(&[2, 5, 1], 3);
    assert_eq!(stats.cell_count, 3);
    assert_eq!(stats.total_proxy_entries, 8);
    assert_eq!(stats.max_proxies_per_cell, 5);
    assert_eq!(stats.dynamic_proxy_count, 3);
    let empty = spatial_hash_stats(&[], 0);
    assert_eq!(empty.total_proxy_entries, 0);
    assert_eq!(empty.max_proxies_per_cell, 0);
}

use oxide_engine_core::physics::IdCounters;

#[test]
fn physics_ids_start_at_one_and_advance() {
    let mut ids = IdCounters::default();
    assert_eq!(ids.allocate_body(), BodyId(1));
    assert_eq!(ids.allocate_body(), BodyId(2));
    assert_eq!(ids.allocate_collider(), ColliderId(1));
    assert_eq!(ids.next_body_id, 3);
    assert_eq!(ids.next_collider_id, 2);
}

#[test]
fn physics_ids_saturate() {
    let mut ids = IdCounters { next_body_id: u64::MAX, next_collider_id: u64::MAX };
    assert_eq!(ids.allocate_body(), BodyId(u64::MAX));
    assert_eq!(ids.allocate_body(), BodyId(u64::MAX));
    assert_eq!(ids.allocate_collider(), ColliderId(u64::MAX));
}

use oxide_engine_core::physics::warm_start_matches;

#[test]
fn warm_start_matches_contacts_by_id() {
    let previous = [ContactId(5), ContactId(9), ContactId(5)];
    let current = [ContactId(9), ContactId(7), ContactId(5)];
    assert_eq!(warm_start_matches(&current, &previous), vec![Some(1), None, Some(0)]);
    assert_eq!(warm_start_matches(&current, &[]), vec![None, None, None]);
}

use oxide_engine_core::physics::{orphan_bodies, orphan_colliders};

#[test]
fn orphan_prune_removes_unreferenced_handles() {
    let world = [BodyId(1), BodyId(2), BodyId(3)];
    let live = [Some(BodyId(3)), None, Some(BodyId(1)), Some(BodyId(9))];
    assert_eq!(orphan_bodies(&world, &live), vec![BodyId(2)]);
    let colliders = [ColliderId(4), ColliderId(5)];
    assert_eq!(orphan_colliders(&colliders, &[]), vec![ColliderId(4), ColliderId(5)]);
    assert_eq!(orphan_colliders(&colliders, &[Some(ColliderId(5)), Some(ColliderId(4))]), Vec::<ColliderId>::new());
}

#[test]
fn candidate_pairs_are_listed_once() {
    let a = proxy(1, 1, true, false);
    let b = proxy(2, 2, true, false);
    let c = proxy(3, 3, false, false);
    // each proxy queries the cells it overlaps, so a pair is found from both sides
    let found = vec![
        candidate_pair(&a, &b, true),
        candidate_pair(&b, &a, true),
        candidate_pair(&a, &c, true),
        candidate_pair(&c, &a, true),
        candidate_pair(&b, &c, false),
    ];
    assert_eq!(
        unique_candidate_pairs(&found),
        vec![(ColliderId(1), ColliderId(2)), (ColliderId(1), ColliderId(3))]
    );
}

#[test]
fn removing_a_body_removes_its_colliders() {
    let mut world = PhysicsWorldIds::new();
    let a = world.create_body();
    let b = world.create_body();
    assert_eq!((a, b), (BodyId(1), BodyId(2)));
    let ca = world.create_collider(a);
    let cb = world.create_collider(b);
    let ca2 = world.create_collider(a);
    assert_eq!((ca, cb, ca2), (ColliderId(1), ColliderId(2), ColliderId(3)));
    assert_eq!(world.collider_body(cb), Some(b));

    world.remove_body(a);
    assert!(!world.contains_body(a));
    assert!(world.contains_body(b));
    assert!(!world.contains_collider(ca));
    assert!(!world.contains_collider(ca2));
    assert!(world.contains_collider(cb));

    world.remove_collider(cb);
    assert!(!world.contains_collider(cb));
    assert_eq!(world.collider_body(cb), None);
    assert_eq!(world.create_body(), BodyId(3));
}

use oxide_engine_core::broadphase::{grid_tested_pairs, ranges_share_cell, CellRange, GridProxy};

struct BoxedProxy {
    grid: GridProxy,
    min: [f32; 3],
    max: [f32; 3],
}

fn grid_cell(v: f32) -> i32 {
    (v * 0.5).floor() as i32
}

fn make_proxy(id: u64, pos: [f32; 3], size: f32, is_dynamic: bool, is_sensor: bool) -> BoxedProxy {
    let min = [pos[0] - size, pos[1] - size, pos[2] - size];
    let max = [pos[0] + size, pos[1] + size, pos[2] + size];
    BoxedProxy {
        grid: GridProxy {
            flags: ProxyFlags { collider_id: ColliderId(id), body_id: BodyId(id), is_dynamic, is_sensor },
            cells: CellRange {
                min_x: grid_cell(min[0]),
                min_y: grid_cell(min[1]),
                min_z: grid_cell(min[2]),
                max_x: grid_cell(max[0]),
                max_y: grid_cell(max[1]),
                max_z: grid_cell(max[2]),
            },
        },
        min,
        max,
    }
}

fn boxes_intersect(a: &BoxedProxy, b: &BoxedProxy) -> bool {
    (0..3).all(|k| a.min[k] <= b.max[k] && a.max[k] >= b.min[k])
}

fn find_pairs(proxies: &[BoxedProxy]) -> Vec<(ColliderId, ColliderId)> {
    let grid: Vec<GridProxy> = proxies.iter().map(|p| p.grid).collect();
    let candidates: Vec<Option<(ColliderId, ColliderId)>> = grid_tested_pairs(&grid)
        .into_iter()
        .map(|(i, j)| candidate_pair(&grid[i].flags, &grid[j].flags, boxes_intersect(&proxies[i], &proxies[j])))
        .collect();
    unique_candidate_pairs(&candidates)
}

#[test]
fn empty_hash_has_no_pairs() {
    assert!(find_pairs(&[]).is_empty());
}

#[test]
fn single_dynamic_no_pairs() {
    let proxies = [make_proxy(1, [0.0, 0.0, 0.0], 0.5, true, false)];
    assert!(find_pairs(&proxies).is_empty());
}

#[test]
fn overlapping_bodies_generate_pair() {
    let proxies = [
        make_proxy(1, [-0.5, 0.0, 0.0], 0.5, true, false),
        make_proxy(2, [0.5, 0.0, 0.0], 0.5, true, false),
    ];
    assert_eq!(find_pairs(&proxies).len(), 1);
}

#[test]
fn separated_bodies_no_pair() {
    let proxies = [
        make_proxy(1, [-10.0, 0.0, 0.0], 0.5, true, false),
        make_proxy(2, [10.0, 0.0, 0.0], 0.5, true, false),
    ];
    assert!(find_pairs(&proxies).is_empty());
}

#[test]
fn static_static_no_pair() {
    let proxies = [
        make_proxy(1, [-0.5, 0.0, 0.0], 0.5, false, false),
        make_proxy(2, [0.5, 0.0, 0.0], 0.5, false, false),
    ];
    assert!(find_pairs(&proxies).is_empty());
}

#[test]
fn dynamic_static_generates_pair() {
    let proxies = [
        make_proxy(1, [-0.5, 0.0, 0.0], 0.5, true, false),
        make_proxy(2, [0.5, 0.0, 0.0], 0.5, false, false),
    ];
    assert_eq!(find_pairs(&proxies).len(), 1);
}

#[test]
fn no_duplicate_pairs() {
    let proxies = [
        make_proxy(1, [0.0, 0.0, 0.0], 1.0, true, false),
        make_proxy(2, [0.0, 0.0, 0.0], 1.0, true, false),
    ];
    let pairs = find_pairs(&proxies);
    assert_eq!(pairs.len(), 1);
    assert_eq!(pairs[0], (ColliderId(1), ColliderId(2)));
}

#[test]
fn static_sensor_pairs_generate_pairs() {
    let proxies = [
        make_proxy(1, [0.0, 0.0, 0.0], 0.5, false, true),
        make_proxy(2, [0.25, 0.0, 0.0], 0.5, false, true),
    ];
    let pairs = find_pairs(&proxies);
    assert_eq!(pairs.len(), 1);
    assert_eq!(pairs[0], (ColliderId(1), ColliderId(2)));
}

#[test]
fn grid_tests_only_proxies_sharing_a_cell() {
    let a = CellRange { min_x: -1, min_y: -1, min_z: -1, max_x: 0, max_y: 0, max_z: 0 };
    let b = CellRange { min_x: 0, min_y: 0, min_z: 0, max_x: 1, max_y: 1, max_z: 1 };
    let c = CellRange { min_x: 2, min_y: 0, min_z: 0, max_x: 3, max_y: 0, max_z: 0 };
    assert!(ranges_share_cell(&a, &b));
    assert!(!ranges_share_cell(&a, &c));
    let grid = vec![
        GridProxy { flags: proxy(1, 1, true, false), cells: a },
        GridProxy { flags: proxy(2, 2, false, false), cells: b },
        GridProxy { flags: proxy(3, 3, true, false), cells: c },
        GridProxy { flags: proxy(4, 1, false, false), cells: a },
    ];
    let mut pairs = grid_tested_pairs(&grid);
    pairs.sort();
    assert_eq!(pairs, vec![(0, 1)]);
}
