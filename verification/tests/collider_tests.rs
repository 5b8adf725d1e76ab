use subsurface::colliders::{
    collision_candidates, collision_event, may_collide, CollideLayer, Collider,
    COLLIDE_LAYER_ENEMY, COLLIDE_LAYER_SURFACE, COLLIDE_LAYER_TERRAIN,
};

#[test]
fn layers_are_distinct_bits() {
    assert_eq!(COLLIDE_LAYER_TERRAIN, 1);
    assert_eq!(COLLIDE_LAYER_ENEMY, 2);
    assert_eq!(COLLIDE_LAYER_SURFACE, 4);
}

#[test]
fn player_hits_enemies_and_terrain_but_not_the_surface() {
    let player = Collider(COLLIDE_LAYER_ENEMY | COLLIDE_LAYER_TERRAIN);
    assert!(may_collide(1, &player, 2, &CollideLayer(COLLIDE_LAYER_ENEMY)));
    assert!(may_collide(1, &player, 2, &CollideLayer(COLLIDE_LAYER_TERRAIN)));
    assert!(!may_collide(1, &player, 2, &CollideLayer(COLLIDE_LAYER_SURFACE)));
}

#[test]
fn bubbles_only_hit_terrain() {
    let bubble = Collider(COLLIDE_LAYER_TERRAIN);
    assert!(may_collide(7, &bubble, 8, &CollideLayer(COLLIDE_LAYER_TERRAIN)));
    assert!(!may_collide(7, &bubble, 8, &CollideLayer(COLLIDE_LAYER_ENEMY)));
}

#[test]
fn nothing_collides_with_itself() {
    let all = Collider(0xff);
    assert!(!may_collide(5, &all, 5, &CollideLayer(COLLIDE_LAYER_ENEMY)));
}

#[test]
fn candidates_keep_target_order() {
    let player = Collider(COLLIDE_LAYER_ENEMY | COLLIDE_LAYER_TERRAIN);
    let targets = vec![
        (10, CollideLayer(COLLIDE_LAYER_ENEMY)),
        (1, CollideLayer(COLLIDE_LAYER_ENEMY)),
        (11, CollideLayer(COLLIDE_LAYER_SURFACE)),
        (12, CollideLayer(COLLIDE_LAYER_TERRAIN)),
        (13, CollideLayer(0)),
    ];
    assert_eq!(collision_candidates(1, &player, &targets), vec![0, 3]);
    assert!(collision_candidates(1, &player, &vec![]).is_empty());
}

#[test]
fn event_only_when_something_was_hit() {
    assert!(collision_event(3, vec![]).is_none());
    let ev = collision_event(3, vec![9, 4]).unwrap();
    assert_eq!(ev.entity, 3);
    assert_eq!(ev.with_entities, vec![9, 4]);
}
