//! Which pairs of entities are tested for collision, and the event raised
//! when a collider touches others.
//!
//! Every collidable entity sits on one layer ([`CollideLayer`]); an entity
//! that reacts to collisions ([`Collider`]) holds a bitmask of the layers it
//! can hit. Entities are named by their 64-bit ids.

use vstd::prelude::*;

verus! {

pub const COLLIDE_LAYER_TERRAIN: u8 = 1 << 0;
pub const COLLIDE_LAYER_ENEMY: u8 = 1 << 1;
pub const COLLIDE_LAYER_SURFACE: u8 = 1 << 2;

/// Marks an entity that can collide with other entities. The field is a
/// bitmask of `COLLIDE_LAYER_` values indicating which entities this entity
/// can collide with.
#[derive(PartialEq, Eq, Structural, Clone, Copy, Debug)]
pub struct Collider(pub u8);

/// Marks an entity that can be collided with. The field is a
/// `COLLIDE_LAYER_` value.
#[derive(PartialEq, Eq, Structural, Clone, Copy, Debug)]
pub struct CollideLayer(pub u8);

/// The pair is worth a geometric test: two distinct entities, and the
/// target's layer is among those the collider reacts to.
pub open spec fn pair_may_collide(
    entity: u64,
    collider: Collider,
    other: u64,
    layer: CollideLayer,
) -> bool {
    entity != other && layer.0 & collider.0 != 0
}

/// Whether `entity`, with collider mask `collider`, is to be tested against
/// `other`, which sits on `layer`.
pub fn may_collide(entity: u64, collider: &Collider, other: u64, layer: &CollideLayer) -> (r: bool)
    ensures
        r == pair_may_collide(entity, *collider, other, *layer),
        r == (entity != other && layer.0 & collider.0 != 0),
{
    entity != other && layer.0 & collider.0 != 0
}

/// The collision filter: whether a pair is tested never depends on the order
/// of the two ids, only on whether they differ. Two distinct entities are
/// tested exactly when the target's layer shares a bit with the collider's
/// mask, and an entity is never tested against itself.
pub proof fn lemma_pair_filter(entity: u64, other: u64, collider: Collider, layer: CollideLayer)
    ensures
        pair_may_collide(entity, collider, other, layer) == pair_may_collide(
            other,
            collider,
            entity,
            layer,
        ),
        entity != other ==> (pair_may_collide(entity, collider, other, layer) <==> layer.0
            & collider.0 != 0),
        !pair_may_collide(entity, collider, entity, layer),
        layer.0 & collider.0 == 0 ==> !pair_may_collide(entity, collider, other, layer),
{
}

/// The indices, in increasing order, of the targets that `entity` is to be
/// tested against.
pub fn collision_candidates(
    entity: u64,
    collider: &Collider,
    targets: &Vec<(u64, CollideLayer)>,
) -> (r: Vec<usize>)
    ensures
        forall|i: int, j: int| 0 <= i < j < r@.len() ==> r@[i] < r@[j],
        forall|k: int|
            0 <= k < targets@.len() ==> (r@.contains(k as usize) <==> pair_may_collide(
                entity,
                *collider,
                targets@[k].0,
                targets@[k].1,
            )),
        forall|i: int| 0 <= i < r@.len() ==> r@[i] < targets@.len(),
{
    let mut r: Vec<usize> = Vec::new();
    let mut k: usize = 0;
    while k < targets.len()
        invariant
            k <= targets@.len(),
            forall|i: int, j: int| 0 <= i < j < r@.len() ==> r@[i] < r@[j],
            forall|i: int| 0 <= i < r@.len() ==> r@[i] < k,
            forall|m: int|
                0 <= m < k ==> (r@.contains(m as usize) <==> pair_may_collide(
                    entity,
                    *collider,
                    targets@[m].0,
                    targets@[m].1,
                )),
        decreases targets@.len() - k,
    {
        let (other, layer) = &targets[k];
        let ghost old_r = r@;
        if may_collide(entity, collider, *other, layer) {
            r.push(k);
            assert(r@[r@.len() - 1] == k);
        }
        assert forall|m: int|
            0 <= m < k + 1 implies (r@.contains(m as usize) <==> pair_may_collide(
                entity,
                *collider,
                targets@[m].0,
                targets@[m].1,
            )) by {
            if m < k {
                if r@.contains(m as usize) {
                    let i = choose|i: int| 0 <= i < r@.len() && r@[i] == m as usize;
                    if i < old_r.len() {
                        assert(old_r[i] == m as usize);
                    }
                }
                if old_r.contains(m as usize) {
                    let i = choose|i: int| 0 <= i < old_r.len() && old_r[i] == m as usize;
                    assert(r@[i] == m as usize);
                }
            } else {
                if r@.contains(m as usize) {
                    let i = choose|i: int| 0 <= i < r@.len() && r@[i] == m as usize;
                    assert(i >= old_r.len());
                }
            }
        }
        k = k + 1;
    }
    r
}

/// Raised on a collider that touched at least one other entity.
pub struct Collided {
    pub entity: u64,
    pub with_entities: Vec<u64>,
}

/// The event for `entity` once its hits are known: none when it hit nothing.
pub fn collision_event(entity: u64, with_entities: Vec<u64>) -> (r: Option<Collided>)
    ensures
        r is Some <==> with_entities@.len() > 0,
        r matches Some(ev) ==> ev.entity == entity && ev.with_entities@ == with_entities@,
{
    if with_entities.len() == 0 {
        None
    } else {
        Some(Collided { entity, with_entities })
    }
}

} // verus!
