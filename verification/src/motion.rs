//! Projectile motion and offscreen culling.

use vstd::prelude::*;
use crate::entity::{Entity, Tag, is_laser, is_enemy_laser, is_projectile, is_player_ship,
    at_most_one_player_ship, lemma_pointwise_keeps_single_player_ship};
use crate::store::{EntityStore, ids_unique, ids_below};
use crate::units::{LASER_SPEED, spec_displacement, sat_i64, displacement, sat_add, sat_sub};

verus! {

/// A projectile after one motion step: player lasers climb and enemy lasers
/// fall, both at the projectile speed. Anything else does not move.
pub open spec fn moved_projectile(e: Entity, dt_ms: u64) -> Entity {
    let d = spec_displacement(LASER_SPEED, dt_ms);
    if is_laser(e) {
        Entity { y: sat_i64(e.y + d) as i64, ..e }
    } else if is_enemy_laser(e) {
        Entity { y: sat_i64(e.y - d) as i64, ..e }
    } else {
        e
    }
}

/// Every entity after one projectile motion step, in order.
pub open spec fn projectiles_moved(s: Seq<Entity>, dt_ms: u64) -> Seq<Entity>
    decreases s.len(),
{
    if s.len() == 0 {
        Seq::empty()
    } else {
        projectiles_moved(s.drop_last(), dt_ms).push(moved_projectile(s.last(), dt_ms))
    }
}

pub proof fn lemma_projectiles_moved_index(s: Seq<Entity>, dt_ms: u64)
    ensures
        projectiles_moved(s, dt_ms).len() == s.len(),
        forall|i: int|
            0 <= i < s.len() ==> projectiles_moved(s, dt_ms)[i] == moved_projectile(s[i], dt_ms),
    decreases s.len(),
{
    if s.len() > 0 {
        lemma_projectiles_moved_index(s.drop_last(), dt_ms);
    }
}

/// Moves every projectile one step; nothing else in the store changes.
pub fn move_laser(store: &mut EntityStore, dt_ms: u64)
    ensures
        final(store).entities@ == projectiles_moved(old(store).entities@, dt_ms),
        final(store).next_id == old(store).next_id,
        final(store).staged@ == old(store).staged@,
        old(store).wf() ==> final(store).wf(),
        at_most_one_player_ship(old(store).entities@) ==> at_most_one_player_ship(
            final(store).entities@,
        ),
{
    let d = displacement(LASER_SPEED, dt_ms);
    let n = store.entities.len();
    let mut out: Vec<Entity> = Vec::new();
    let mut i: usize = 0;
    while i < n
        invariant
            n == store.entities@.len(),
            0 <= i <= n,
            d == spec_displacement(LASER_SPEED, dt_ms),
            0 <= d,
            out@ == projectiles_moved(store.entities@.take(i as int), dt_ms),
        decreases n - i,
    {
        let e = store.entities[i];
        proof {
            assert(store.entities@.take(i + 1).drop_last() =~= store.entities@.take(i as int));
            assert(store.entities@.take(i + 1).last() == store.entities@[i as int]);
        }
        let moved = match e.tag {
            Some(Tag::Laser) => {
                let mut e2 = e;
                e2.y = sat_add(e.y, d);
                e2
            },
            Some(Tag::EnemyLaser) => {
                let mut e2 = e;
                e2.y = sat_sub(e.y, d);
                e2
            },
            _ => e,
        };
        out.push(moved);
        i = i + 1;
    }
    proof {
        assert(store.entities@.take(n as int) =~= store.entities@);
        lemma_projectiles_moved_index(store.entities@, dt_ms);
        if store.wf() {
            let mv = projectiles_moved(store.entities@, dt_ms);
            assert forall|a: int, b: int| 0 <= a < b < mv.len() implies mv[a].id != mv[b].id by {
                assert(mv[a] == moved_projectile(store.entities@[a], dt_ms));
                assert(mv[b] == moved_projectile(store.entities@[b], dt_ms));
            }
            assert forall|a: int| 0 <= a < mv.len() implies (#[trigger] mv[a]).id
                < store.next_id by {
                assert(mv[a] == moved_projectile(store.entities@[a], dt_ms));
            }
            assert(ids_unique(mv));
            assert(ids_below(mv, store.next_id));
        }
        if at_most_one_player_ship(store.entities@) {
            let mv = projectiles_moved(store.entities@, dt_ms);
            assert forall|k: int|
                0 <= k < mv.len() && is_player_ship(#[trigger] mv[k]) implies is_player_ship(
                store.entities@[k],
            ) by {
                assert(mv[k] == moved_projectile(store.entities@[k], dt_ms));
            }
            lemma_pointwise_keeps_single_player_ship(store.entities@, mv);
        }
    }
    store.entities = out;
}

/// Whether the culling rule destroys `e`: a projectile of either kind whose
/// height has reached two fifths of the viewport height (`y >= 0.4 * h`,
/// stated without division as `5 * y >= 2 * h`).
pub open spec fn is_offscreen(e: Entity, window_height: int) -> bool {
    is_projectile(e) && 5 * e.y >= 2 * window_height
}

/// Ids of the entities the culling rule destroys, in store order.
pub open spec fn offscreen_ids(s: Seq<Entity>, window_height: int) -> Seq<u64>
    decreases s.len(),
{
    if s.len() == 0 {
        Seq::empty()
    } else {
        let rest = offscreen_ids(s.drop_last(), window_height);
        if is_offscreen(s.last(), window_height) {
            rest.push(s.last().id)
        } else {
            rest
        }
    }
}

/// Stages every offscreen projectile for destruction. Entities are not
/// removed here: the staged ids are applied after the pass.
pub fn clear_offscreen_lasers(store: &mut EntityStore, window_height: i64)
    ensures
        final(store).entities@ == old(store).entities@,
        final(store).next_id == old(store).next_id,
        final(store).staged@ == old(store).staged@ + offscreen_ids(
            old(store).entities@,
            window_height as int,
        ),
        old(store).wf() ==> final(store).wf(),
{
    let n = store.entities.len();
    let mut i: usize = 0;
    while i < n
        invariant
            n == store.entities@.len(),
            0 <= i <= n,
            store.entities@ == old(store).entities@,
            store.next_id == old(store).next_id,
            store.staged@ == old(store).staged@ + offscreen_ids(
                old(store).entities@.take(i as int),
                window_height as int,
            ),
        decreases n - i,
    {
        let e = store.entities[i];
        proof {
            assert(store.entities@.take(i + 1).drop_last() =~= store.entities@.take(i as int));
            assert(store.entities@.take(i + 1).last() == store.entities@[i as int]);
        }
        let projectile = match e.tag {
            Some(Tag::Laser) => true,
            Some(Tag::EnemyLaser) => true,
            _ => false,
        };
        if projectile && 5 * (e.y as i128) >= 2 * (window_height as i128) {
            store.destroy(e.id);
        }
        i = i + 1;
    }
    proof {
        assert(old(store).entities@.take(n as int) =~= old(store).entities@);
    }
}

} // verus!
