//! Tests of the small supporting types.

use tile_sdf::animation::AnimationUniform;
use tile_sdf::entity::Entity;
use tile_sdf::entity::Types;
use tile_sdf::utils::Incrementor;

#[test]
fn incrementor_counts_from_zero() {
    let mut inc = Incrementor::new();
    assert_eq!(inc.next(), Some(0));
    assert_eq!(inc.next(), Some(1));
    assert_eq!(inc.next(), Some(2));
}

#[test]
fn entity_keeps_id_and_kind() {
    let e = Entity::new(5, Types::PLAYER);
    assert_eq!(e.id, 5);
    assert!(e.kind == Types::PLAYER);
    let f = Entity::new(7, Types::ENVIRONMENT);
    assert!(f.kind == Types::ENVIRONMENT);
}

#[test]
fn animation_uniform_keeps_tile_index() {
    let u = AnimationUniform::new(3);
    assert_eq!(u.tile_index, 3);
}
