//! Cooldown-gated projectile fire for the player ship and the enemies.
//!
//! The player cooldown ticks only while the fire key is held, so releasing
//! the key pauses its decay; each enemy's fire gate ticks every frame
//! unconditionally. Both reset on firing. New lasers join the store after
//! the pass over the existing entities, in the order their ships stand in
//! the store, under consecutive fresh ids.

use vstd::prelude::*;
use crate::entity::{Entity, Tag, Collider, Assets, is_ship, is_enemy, is_player_ship,
    at_most_one_player_ship, lemma_pointwise_keeps_single_player_ship,
    lemma_concat_keeps_single_player_ship};
use crate::store::{EntityStore, ids_unique, ids_below};
use crate::timer::Timer;
use crate::units::{LASER_NOSE_OFFSET, SCALE_FULL, sat_i64, sat_add, sat_sub};

verus! {

/// Whether a ship fires this frame: the fire key is held and its cooldown,
/// ticked by this frame's elapsed time, has finished.
pub open spec fn ship_fires(e: Entity, fire_held: bool, dt_ms: u64) -> bool {
    &&& is_ship(e)
    &&& fire_held
    &&& match e.fire_timer {
        Some(t) => t.spec_ticked(dt_ms).spec_finished(),
        None => false,
    }
}

/// A ship after the player fire pass: its cooldown is ticked only while the
/// fire key is held, and reset when it fires. Anything else is unchanged.
pub open spec fn ship_after_shoot(e: Entity, fire_held: bool, dt_ms: u64) -> Entity {
    match e.fire_timer {
        Some(t) => {
            if is_ship(e) && fire_held {
                if t.spec_ticked(dt_ms).spec_finished() {
                    Entity {
                        fire_timer: Some(Timer { duration_ms: t.duration_ms, elapsed_ms: 0 }),
                        ..e
                    }
                } else {
                    Entity { fire_timer: Some(t.spec_ticked(dt_ms)), ..e }
                }
            } else {
                e
            }
        },
        None => e,
    }
}

/// The player laser a ship fires: spawned at the nose of the ship, one
/// laser-offset above it, as a projectile collider.
pub open spec fn new_laser(ship: Entity, assets: Assets, id: u64) -> Entity {
    Entity {
        id,
        tag: Some(Tag::Laser),
        x: ship.x,
        y: sat_i64(ship.y + LASER_NOSE_OFFSET) as i64,
        scale: SCALE_FULL,
        half_w: assets.laser_half_w,
        half_h: assets.laser_half_h,
        collider: Some(Collider::Projectile),
        material: assets.laser_material,
        fire_timer: None,
    }
}

/// How many ships of `s` fire this frame.
pub open spec fn fired_count(s: Seq<Entity>, fire_held: bool, dt_ms: u64) -> int
    decreases s.len(),
{
    if s.len() == 0 {
        0
    } else {
        fired_count(s.drop_last(), fire_held, dt_ms) + if ship_fires(s.last(), fire_held, dt_ms) {
            1int
        } else {
            0int
        }
    }
}

/// Every ship of `s` after the player fire pass, in order.
pub open spec fn ships_ticked(s: Seq<Entity>, fire_held: bool, dt_ms: u64) -> Seq<Entity>
    decreases s.len(),
{
    if s.len() == 0 {
        Seq::empty()
    } else {
        ships_ticked(s.drop_last(), fire_held, dt_ms).push(
            ship_after_shoot(s.last(), fire_held, dt_ms),
        )
    }
}

/// The lasers the firing ships of `s` spawn, in store order, under ids
/// counted up from `first_id`.
pub open spec fn spawned_lasers(
    s: Seq<Entity>,
    assets: Assets,
    fire_held: bool,
    dt_ms: u64,
    first_id: int,
) -> Seq<Entity>
    decreases s.len(),
{
    if s.len() == 0 {
        Seq::empty()
    } else {
        let rest = spawned_lasers(s.drop_last(), assets, fire_held, dt_ms, first_id);
        if ship_fires(s.last(), fire_held, dt_ms) {
            rest.push(
                new_laser(
                    s.last(),
                    assets,
                    (first_id + fired_count(s.drop_last(), fire_held, dt_ms)) as u64,
                ),
            )
        } else {
            rest
        }
    }
}

pub proof fn lemma_fired_count_bounds(s: Seq<Entity>, fire_held: bool, dt_ms: u64)
    ensures
        0 <= fired_count(s, fire_held, dt_ms) <= s.len(),
    decreases s.len(),
{
    if s.len() > 0 {
        lemma_fired_count_bounds(s.drop_last(), fire_held, dt_ms);
    }
}

pub proof fn lemma_ships_ticked_index(s: Seq<Entity>, fire_held: bool, dt_ms: u64)
    ensures
        ships_ticked(s, fire_held, dt_ms).len() == s.len(),
        forall|i: int|
            0 <= i < s.len() ==> ships_ticked(s, fire_held, dt_ms)[i] == ship_after_shoot(
                s[i],
                fire_held,
                dt_ms,
            ),
    decreases s.len(),
{
    if s.len() > 0 {
        lemma_ships_ticked_index(s.drop_last(), fire_held, dt_ms);
    }
}

pub proof fn lemma_spawned_lasers_len(
    s: Seq<Entity>,
    assets: Assets,
    fire_held: bool,
    dt_ms: u64,
    first_id: int,
)
    ensures
        spawned_lasers(s, assets, fire_held, dt_ms, first_id).len() == fired_count(
            s,
            fire_held,
            dt_ms,
        ),
    decreases s.len(),
{
    lemma_fired_count_bounds(s, fire_held, dt_ms);
    if s.len() > 0 {
        lemma_spawned_lasers_len(s.drop_last(), assets, fire_held, dt_ms, first_id);
    }
}

/// The spawned lasers carry the consecutive fresh ids from `first_id` on,
/// so they are pairwise distinct.
pub proof fn lemma_spawned_lasers_ids(
    s: Seq<Entity>,
    assets: Assets,
    fire_held: bool,
    dt_ms: u64,
    first_id: int,
)
    requires
        0 <= first_id,
        first_id + fired_count(s, fire_held, dt_ms) <= u64::MAX,
    ensures
        ids_unique(spawned_lasers(s, assets, fire_held, dt_ms, first_id)),
        forall|k: int|
            0 <= k < spawned_lasers(s, assets, fire_held, dt_ms, first_id).len() ==> first_id <= (
            #[trigger] spawned_lasers(s, assets, fire_held, dt_ms, first_id)[k]).id < first_id
                + fired_count(s, fire_held, dt_ms),
    decreases s.len(),
{
    if s.len() > 0 {
        lemma_fired_count_bounds(s.drop_last(), fire_held, dt_ms);
        lemma_spawned_lasers_ids(s.drop_last(), assets, fire_held, dt_ms, first_id);
        let rest = spawned_lasers(s.drop_last(), assets, fire_held, dt_ms, first_id);
        let all = spawned_lasers(s, assets, fire_held, dt_ms, first_id);
        let prior = fired_count(s.drop_last(), fire_held, dt_ms);
        if ship_fires(s.last(), fire_held, dt_ms) {
            assert(all.last() == new_laser(s.last(), assets, (first_id + prior) as u64));
            assert(all.last().id == first_id + prior);
        }
    }
}

/// The player fire pass hands out ids above every id of the input store, so
/// id uniqueness and the id bound survive it.
pub proof fn lemma_shoot_ids(
    s: Seq<Entity>,
    assets: Assets,
    fire_held: bool,
    dt_ms: u64,
    first_id: u64,
)
    requires
        ids_unique(s),
        ids_below(s, first_id),
        first_id + fired_count(s, fire_held, dt_ms) <= u64::MAX,
    ensures
        ids_unique(
            ships_ticked(s, fire_held, dt_ms) + spawned_lasers(
                s,
                assets,
                fire_held,
                dt_ms,
                first_id as int,
            ),
        ),
        ids_below(
            ships_ticked(s, fire_held, dt_ms) + spawned_lasers(
                s,
                assets,
                fire_held,
                dt_ms,
                first_id as int,
            ),
            (first_id + fired_count(s, fire_held, dt_ms)) as u64,
        ),
{
    lemma_fired_count_bounds(s, fire_held, dt_ms);
    lemma_ships_ticked_index(s, fire_held, dt_ms);
    lemma_spawned_lasers_ids(s, assets, fire_held, dt_ms, first_id as int);
    let a = ships_ticked(s, fire_held, dt_ms);
    let b = spawned_lasers(s, assets, fire_held, dt_ms, first_id as int);
    let c = a + b;
    assert forall|i: int| 0 <= i < a.len() implies (#[trigger] a[i]).id == s[i].id by {
        assert(a[i] == ship_after_shoot(s[i], fire_held, dt_ms));
    }
    assert forall|i: int, j: int| 0 <= i < j < c.len() implies c[i].id != c[j].id by {
        if j < a.len() {
            assert(c[i] == a[i] && c[j] == a[j]);
        } else if i < a.len() {
            assert(c[i] == a[i] && c[j] == b[j - a.len()]);
        } else {
            assert(c[i] == b[i - a.len()] && c[j] == b[j - a.len()]);
        }
    }
    assert forall|k: int| 0 <= k < c.len() implies (#[trigger] c[k]).id < first_id + fired_count(
        s,
        fire_held,
        dt_ms,
    ) by {
        if k < a.len() {
            assert(c[k] == a[k]);
        } else {
            assert(c[k] == b[k - a.len()]);
        }
    }
}

pub proof fn lemma_spawned_lasers_tags(
    s: Seq<Entity>,
    assets: Assets,
    fire_held: bool,
    dt_ms: u64,
    first_id: int,
)
    ensures
        forall|k: int|
            0 <= k < spawned_lasers(s, assets, fire_held, dt_ms, first_id).len()
                ==> crate::entity::is_laser(
                #[trigger] spawned_lasers(s, assets, fire_held, dt_ms, first_id)[k],
            ),
    decreases s.len(),
{
    if s.len() > 0 {
        lemma_spawned_lasers_tags(s.drop_last(), assets, fire_held, dt_ms, first_id);
        let rest = spawned_lasers(s.drop_last(), assets, fire_held, dt_ms, first_id);
        let all = spawned_lasers(s, assets, fire_held, dt_ms, first_id);
        assert forall|k: int| 0 <= k < all.len() implies crate::entity::is_laser(
            #[trigger] all[k],
        ) by {
            if ship_fires(s.last(), fire_held, dt_ms) && k == rest.len() {
                assert(all[k] == new_laser(
                    s.last(),
                    assets,
                    (first_id + fired_count(s.drop_last(), fire_held, dt_ms)) as u64,
                ));
            } else {
                assert(all[k] == rest[k]);
            }
        }
    }
}

/// Player fire: ticks each ship's cooldown while the fire key is held, and
/// where it finishes, resets it and spawns one player laser at the nose of
/// the ship. The lasers join the store after the pass, under consecutive
/// fresh ids.
pub fn shoot(store: &mut EntityStore, assets: &Assets, fire_held: bool, dt_ms: u64)
    requires
        old(store).next_id + old(store).entities@.len() <= u64::MAX,
    ensures
        final(store).entities@ == ships_ticked(old(store).entities@, fire_held, dt_ms)
            + spawned_lasers(
            old(store).entities@,
            *assets,
            fire_held,
            dt_ms,
            old(store).next_id as int,
        ),
        final(store).next_id == old(store).next_id + fired_count(
            old(store).entities@,
            fire_held,
            dt_ms,
        ),
        final(store).staged@ == old(store).staged@,
        old(store).wf() ==> final(store).wf(),
        at_most_one_player_ship(old(store).entities@) ==> at_most_one_player_ship(
            final(store).entities@,
        ),
{
    proof {
        lemma_fired_count_bounds(store.entities@, fire_held, dt_ms);
        if store.wf() {
            lemma_shoot_ids(store.entities@, *assets, fire_held, dt_ms, store.next_id);
        }
        if at_most_one_player_ship(store.entities@) {
            let s = store.entities@;
            let a = ships_ticked(s, fire_held, dt_ms);
            let b = spawned_lasers(s, *assets, fire_held, dt_ms, store.next_id as int);
            lemma_ships_ticked_index(s, fire_held, dt_ms);
            assert forall|k: int|
                0 <= k < a.len() && is_player_ship(#[trigger] a[k]) implies is_player_ship(
                s[k],
            ) by {
                assert(a[k] == ship_after_shoot(s[k], fire_held, dt_ms));
            }
            lemma_pointwise_keeps_single_player_ship(s, a);
            lemma_spawned_lasers_tags(s, *assets, fire_held, dt_ms, store.next_id as int);
            lemma_concat_keeps_single_player_ship(a, b);
        }
    }
    let n = store.entities.len();
    let mut out: Vec<Entity> = Vec::new();
    let mut lasers: Vec<Entity> = Vec::new();
    let mut next: u64 = store.next_id;
    let mut i: usize = 0;
    while i < n
        invariant
            n == store.entities@.len(),
            0 <= i <= n,
            store.next_id + store.entities@.len() <= u64::MAX,
            out@ == ships_ticked(store.entities@.take(i as int), fire_held, dt_ms),
            lasers@ == spawned_lasers(
                store.entities@.take(i as int),
                *assets,
                fire_held,
                dt_ms,
                store.next_id as int,
            ),
            next == store.next_id + fired_count(store.entities@.take(i as int), fire_held, dt_ms),
            fired_count(store.entities@.take(i as int), fire_held, dt_ms) <= i,
        decreases n - i,
    {
        let e = store.entities[i];
        proof {
            assert(store.entities@.take(i + 1).drop_last() =~= store.entities@.take(i as int));
            assert(store.entities@.take(i + 1).last() == store.entities@[i as int]);
            lemma_fired_count_bounds(store.entities@.take(i as int), fire_held, dt_ms);
        }
        let is_ship_e = match e.tag {
            Some(Tag::Ship) => true,
            _ => false,
        };
        if is_ship_e && fire_held {
            match e.fire_timer {
                Some(t0) => {
                    let mut t = t0;
                    let finished = t.tick(dt_ms);
                    let mut e2 = e;
                    if finished {
                        t.reset();
                        e2.fire_timer = Some(t);
                        out.push(e2);
                        let laser = Entity {
                            id: next,
                            tag: Some(Tag::Laser),
                            x: e.x,
                            y: sat_add(e.y, LASER_NOSE_OFFSET),
                            scale: SCALE_FULL,
                            half_w: assets.laser_half_w,
                            half_h: assets.laser_half_h,
                            collider: Some(Collider::Projectile),
                            material: assets.laser_material,
                            fire_timer: None,
                        };
                        lasers.push(laser);
                        next = next + 1;
                    } else {
                        e2.fire_timer = Some(t);
                        out.push(e2);
                    }
                },
                None => {
                    out.push(e);
                },
            }
        } else {
            out.push(e);
        }
        i = i + 1;
    }
    proof {
        assert(store.entities@.take(n as int) =~= store.entities@);
    }
    let mut spawned = lasers;
    out.append(&mut spawned);
    store.entities = out;
    store.next_id = next;
}

/// Whether an enemy fires this frame: its fire gate, ticked by this frame's
/// elapsed time, has finished.
pub open spec fn enemy_fires(e: Entity, dt_ms: u64) -> bool {
    &&& is_enemy(e)
    &&& match e.fire_timer {
        Some(t) => t.spec_ticked(dt_ms).spec_finished(),
        None => false,
    }
}

/// An enemy after the enemy fire pass: its fire gate is ticked every frame
/// unconditionally, and reset when it fires. Anything else is unchanged.
pub open spec fn enemy_after_shoot(e: Entity, dt_ms: u64) -> Entity {
    match e.fire_timer {
        Some(t) => {
            if is_enemy(e) {
                if t.spec_ticked(dt_ms).spec_finished() {
                    Entity {
                        fire_timer: Some(Timer { duration_ms: t.duration_ms, elapsed_ms: 0 }),
                        ..e
                    }
                } else {
                    Entity { fire_timer: Some(t.spec_ticked(dt_ms)), ..e }
                }
            } else {
                e
            }
        },
        None => e,
    }
}

/// The laser an enemy fires: spawned one laser-offset below the enemy, as a
/// projectile collider.
pub open spec fn new_enemy_laser(enemy: Entity, assets: Assets, id: u64) -> Entity {
    Entity {
        id,
        tag: Some(Tag::EnemyLaser),
        x: enemy.x,
        y: sat_i64(enemy.y - LASER_NOSE_OFFSET) as i64,
        scale: SCALE_FULL,
        half_w: assets.enemy_laser_half_w,
        half_h: assets.enemy_laser_half_h,
        collider: Some(Collider::Projectile),
        material: assets.enemy_laser_material,
        fire_timer: None,
    }
}

/// How many enemies of `s` fire this frame.
pub open spec fn enemy_fired_count(s: Seq<Entity>, dt_ms: u64) -> int
    decreases s.len(),
{
    if s.len() == 0 {
        0
    } else {
        enemy_fired_count(s.drop_last(), dt_ms) + if enemy_fires(s.last(), dt_ms) {
            1int
        } else {
            0int
        }
    }
}

/// Every enemy of `s` after the enemy fire pass, in order.
pub open spec fn enemies_ticked(s: Seq<Entity>, dt_ms: u64) -> Seq<Entity>
    decreases s.len(),
{
    if s.len() == 0 {
        Seq::empty()
    } else {
        enemies_ticked(s.drop_last(), dt_ms).push(enemy_after_shoot(s.last(), dt_ms))
    }
}

/// The lasers the firing enemies of `s` spawn, in store order, under ids
/// counted up from `first_id`.
pub open spec fn spawned_enemy_lasers(s: Seq<Entity>, assets: Assets, dt_ms: u64, first_id: int) -> Seq<
    Entity,
>
    decreases s.len(),
{
    if s.len() == 0 {
        Seq::empty()
    } else {
        let rest = spawned_enemy_lasers(s.drop_last(), assets, dt_ms, first_id);
        if enemy_fires(s.last(), dt_ms) {
            rest.push(
                new_enemy_laser(
                    s.last(),
                    assets,
                    (first_id + enemy_fired_count(s.drop_last(), dt_ms)) as u64,
                ),
            )
        } else {
            rest
        }
    }
}

pub proof fn lemma_enemy_fired_count_bounds(s: Seq<Entity>, dt_ms: u64)
    ensures
        0 <= enemy_fired_count(s, dt_ms) <= s.len(),
    decreases s.len(),
{
    if s.len() > 0 {
        lemma_enemy_fired_count_bounds(s.drop_last(), dt_ms);
    }
}

pub proof fn lemma_enemies_ticked_index(s: Seq<Entity>, dt_ms: u64)
    ensures
        enemies_ticked(s, dt_ms).len() == s.len(),
        forall|i: int|
            0 <= i < s.len() ==> enemies_ticked(s, dt_ms)[i] == enemy_after_shoot(s[i], dt_ms),
    decreases s.len(),
{
    if s.len() > 0 {
        lemma_enemies_ticked_index(s.drop_last(), dt_ms);
    }
}

pub proof fn lemma_spawned_enemy_lasers_len(
    s: Seq<Entity>,
    assets: Assets,
    dt_ms: u64,
    first_id: int,
)
    ensures
        spawned_enemy_lasers(s, assets, dt_ms, first_id).len() == enemy_fired_count(s, dt_ms),
    decreases s.len(),
{
    lemma_enemy_fired_count_bounds(s, dt_ms);
    if s.len() > 0 {
        lemma_spawned_enemy_lasers_len(s.drop_last(), assets, dt_ms, first_id);
    }
}

/// The spawned enemy lasers carry the consecutive fresh ids from `first_id`
/// on, so they are pairwise distinct.
pub proof fn lemma_spawned_enemy_lasers_ids(
    s: Seq<Entity>,
    assets: Assets,
    dt_ms: u64,
    first_id: int,
)
    requires
        0 <= first_id,
        first_id + enemy_fired_count(s, dt_ms) <= u64::MAX,
    ensures
        ids_unique(spawned_enemy_lasers(s, assets, dt_ms, first_id)),
        forall|k: int|
            0 <= k < spawned_enemy_lasers(s, assets, dt_ms, first_id).len() ==> first_id <= (
            #[trigger] spawned_enemy_lasers(s, assets, dt_ms, first_id)[k]).id < first_id
                + enemy_fired_count(s, dt_ms),
    decreases s.len(),
{
    if s.len() > 0 {
        lemma_enemy_fired_count_bounds(s.drop_last(), dt_ms);
        lemma_spawned_enemy_lasers_ids(s.drop_last(), assets, dt_ms, first_id);
        let all = spawned_enemy_lasers(s, assets, dt_ms, first_id);
        let prior = enemy_fired_count(s.drop_last(), dt_ms);
        if enemy_fires(s.last(), dt_ms) {
            assert(all.last() == new_enemy_laser(s.last(), assets, (first_id + prior) as u64));
            assert(all.last().id == first_id + prior);
        }
    }
}

/// The enemy fire pass hands out ids above every id of the input store, so
/// id uniqueness and the id bound survive it.
pub proof fn lemma_enemy_shoot_ids(s: Seq<Entity>, assets: Assets, dt_ms: u64, first_id: u64)
    requires
        ids_unique(s),
        ids_below(s, first_id),
        first_id + enemy_fired_count(s, dt_ms) <= u64::MAX,
    ensures
        ids_unique(
            enemies_ticked(s, dt_ms) + spawned_enemy_lasers(s, assets, dt_ms, first_id as int),
        ),
        ids_below(
            enemies_ticked(s, dt_ms) + spawned_enemy_lasers(s, assets, dt_ms, first_id as int),
            (first_id + enemy_fired_count(s, dt_ms)) as u64,
        ),
{
    lemma_enemy_fired_count_bounds(s, dt_ms);
    lemma_enemies_ticked_index(s, dt_ms);
    lemma_spawned_enemy_lasers_ids(s, assets, dt_ms, first_id as int);
    let a = enemies_ticked(s, dt_ms);
    let b = spawned_enemy_lasers(s, assets, dt_ms, first_id as int);
    let c = a + b;
    assert forall|i: int| 0 <= i < a.len() implies (#[trigger] a[i]).id == s[i].id by {
        assert(a[i] == enemy_after_shoot(s[i], dt_ms));
    }
    assert forall|i: int, j: int| 0 <= i < j < c.len() implies c[i].id != c[j].id by {
        if j < a.len() {
            assert(c[i] == a[i] && c[j] == a[j]);
        } else if i < a.len() {
            assert(c[i] == a[i] && c[j] == b[j - a.len()]);
        } else {
            assert(c[i] == b[i - a.len()] && c[j] == b[j - a.len()]);
        }
    }
    assert forall|k: int| 0 <= k < c.len() implies (#[trigger] c[k]).id < first_id
        + enemy_fired_count(s, dt_ms) by {
        if k < a.len() {
            assert(c[k] == a[k]);
        } else {
            assert(c[k] == b[k - a.len()]);
        }
    }
}

pub proof fn lemma_spawned_enemy_lasers_tags(
    s: Seq<Entity>,
    assets: Assets,
    dt_ms: u64,
    first_id: int,
)
    ensures
        forall|k: int|
            0 <= k < spawned_enemy_lasers(s, assets, dt_ms, first_id).len()
                ==> crate::entity::is_enemy_laser(
                #[trigger] spawned_enemy_lasers(s, assets, dt_ms, first_id)[k],
            ),
    decreases s.len(),
{
    if s.len() > 0 {
        lemma_spawned_enemy_lasers_tags(s.drop_last(), assets, dt_ms, first_id);
        let rest = spawned_enemy_lasers(s.drop_last(), assets, dt_ms, first_id);
        let all = spawned_enemy_lasers(s, assets, dt_ms, first_id);
        assert forall|k: int| 0 <= k < all.len() implies crate::entity::is_enemy_laser(
            #[trigger] all[k],
        ) by {
            if enemy_fires(s.last(), dt_ms) && k == rest.len() {
                assert(all[k] == new_enemy_laser(
                    s.last(),
                    assets,
                    (first_id + enemy_fired_count(s.drop_last(), dt_ms)) as u64,
                ));
            } else {
                assert(all[k] == rest[k]);
            }
        }
    }
}

/// Enemy fire: ticks each enemy's fire gate every frame, and where it
/// finishes, resets it and spawns one enemy laser below the enemy. The
/// lasers join the store after the pass, under consecutive fresh ids.
pub fn enemy_shoot(store: &mut EntityStore, assets: &Assets, dt_ms: u64)
    requires
        old(store).next_id + old(store).entities@.len() <= u64::MAX,
    ensures
        final(store).entities@ == enemies_ticked(old(store).entities@, dt_ms)
            + spawned_enemy_lasers(
            old(store).entities@,
            *assets,
            dt_ms,
            old(store).next_id as int,
        ),
        final(store).next_id == old(store).next_id + enemy_fired_count(
            old(store).entities@,
            dt_ms,
        ),
        final(store).staged@ == old(store).staged@,
        old(store).wf() ==> final(store).wf(),
        at_most_one_player_ship(old(store).entities@) ==> at_most_one_player_ship(
            final(store).entities@,
        ),
{
    proof {
        lemma_enemy_fired_count_bounds(store.entities@, dt_ms);
        if store.wf() {
            lemma_enemy_shoot_ids(store.entities@, *assets, dt_ms, store.next_id);
        }
        if at_most_one_player_ship(store.entities@) {
            let s = store.entities@;
            let a = enemies_ticked(s, dt_ms);
            let b = spawned_enemy_lasers(s, *assets, dt_ms, store.next_id as int);
            lemma_enemies_ticked_index(s, dt_ms);
            assert forall|k: int|
                0 <= k < a.len() && is_player_ship(#[trigger] a[k]) implies is_player_ship(
                s[k],
            ) by {
                assert(a[k] == enemy_after_shoot(s[k], dt_ms));
            }
            lemma_pointwise_keeps_single_player_ship(s, a);
            lemma_spawned_enemy_lasers_tags(s, *assets, dt_ms, store.next_id as int);
            lemma_concat_keeps_single_player_ship(a, b);
        }
    }
    let n = store.entities.len();
    let mut out: Vec<Entity> = Vec::new();
    let mut lasers: Vec<Entity> = Vec::new();
    let mut next: u64 = store.next_id;
    let mut i: usize = 0;
    while i < n
        invariant
            n == store.entities@.len(),
            0 <= i <= n,
            store.next_id + store.entities@.len() <= u64::MAX,
            out@ == enemies_ticked(store.entities@.take(i as int), dt_ms),
            lasers@ == spawned_enemy_lasers(
                store.entities@.take(i as int),
                *assets,
                dt_ms,
                store.next_id as int,
            ),
            next == store.next_id + enemy_fired_count(store.entities@.take(i as int), dt_ms),
            enemy_fired_count(store.entities@.take(i as int), dt_ms) <= i,
        decreases n - i,
    {
        let e = store.entities[i];
        proof {
            assert(store.entities@.take(i + 1).drop_last() =~= store.entities@.take(i as int));
            assert(store.entities@.take(i + 1).last() == store.entities@[i as int]);
            lemma_enemy_fired_count_bounds(store.entities@.take(i as int), dt_ms);
        }
        let is_enemy_e = match e.tag {
            Some(Tag::Enemy) => true,
            _ => false,
        };
        if is_enemy_e {
            match e.fire_timer {
                Some(t0) => {
                    let mut t = t0;
                    let finished = t.tick(dt_ms);
                    let mut e2 = e;
                    if finished {
                        t.reset();
                        e2.fire_timer = Some(t);
                        out.push(e2);
                        let laser = Entity {
                            id: next,
                            tag: Some(Tag::EnemyLaser),
                            x: e.x,
                            y: sat_sub(e.y, LASER_NOSE_OFFSET),
                            scale: SCALE_FULL,
                            half_w: assets.enemy_laser_half_w,
                            half_h: assets.enemy_laser_half_h,
                            collider: Some(Collider::Projectile),
                            material: assets.enemy_laser_material,
                            fire_timer: None,
                        };
                        lasers.push(laser);
                        next = next + 1;
                    } else {
                        e2.fire_timer = Some(t);
                        out.push(e2);
                    }
                },
                None => {
                    out.push(e);
                },
            }
        } else {
            out.push(e);
        }
        i = i + 1;
    }
    proof {
        assert(store.entities@.take(n as int) =~= store.entities@);
    }
    let mut spawned = lasers;
    out.append(&mut spawned);
    store.entities = out;
    store.next_id = next;
}

} // verus!
