//! Initial arena setup and periodic enemy spawning.

use vstd::prelude::*;
use rand::Rng;
use crate::entity::{Entity, Tag, Collider, Assets, at_most_one_player_ship, is_player_ship,
    lemma_push_keeps_single_player_ship};
use crate::store::{EntityStore, with_id};
use crate::timer::Timer;
use crate::units::{
    ARENA_HALF_EXTENT, WALL_HALF_THICKNESS, WALL_HALF_LENGTH, SHIP_SPAWN_Y, ENEMY_SPAWN_Y,
    ENEMY_X_RANGE, SCALE_FULL, SCALE_SHIP, PLAYER_COOLDOWN_MS, ENEMY_SPAWN_INTERVAL_MS,
    ENEMY_FIRE_INTERVAL_MS,
};

verus! {

/// A solid arena wall segment; walls are created once at setup and never
/// moved or destroyed.
pub open spec fn wall_entity(
    assets: Assets,
    id: u64,
    x: i64,
    y: i64,
    half_w: i64,
    half_h: i64,
) -> Entity {
    Entity {
        id,
        tag: None,
        x,
        y,
        scale: SCALE_FULL,
        half_w,
        half_h,
        collider: Some(Collider::Solid),
        material: assets.wall_material,
        fire_timer: None,
    }
}

/// The four arena walls in creation order: left, right, bottom, top.
pub open spec fn wall_entities(assets: Assets, first_id: int) -> Seq<Entity> {
    seq![
        wall_entity(
            assets,
            first_id as u64,
            (-ARENA_HALF_EXTENT) as i64,
            0,
            WALL_HALF_THICKNESS,
            WALL_HALF_LENGTH,
        ),
        wall_entity(
            assets,
            (first_id + 1) as u64,
            ARENA_HALF_EXTENT,
            0,
            WALL_HALF_THICKNESS,
            WALL_HALF_LENGTH,
        ),
        wall_entity(
            assets,
            (first_id + 2) as u64,
            0,
            (-ARENA_HALF_EXTENT) as i64,
            WALL_HALF_LENGTH,
            WALL_HALF_THICKNESS,
        ),
        wall_entity(
            assets,
            (first_id + 3) as u64,
            0,
            ARENA_HALF_EXTENT,
            WALL_HALF_LENGTH,
            WALL_HALF_THICKNESS,
        ),
    ]
}

/// Creates the four solid walls that bound the arena.
pub fn setup_walls(store: &mut EntityStore, assets: &Assets)
    requires
        old(store).next_id + 4 <= u64::MAX,
    ensures
        final(store).entities@ == old(store).entities@ + wall_entities(
            *assets,
            old(store).next_id as int,
        ),
        final(store).next_id == old(store).next_id + 4,
        final(store).staged@ == old(store).staged@,
        old(store).wf() ==> final(store).wf(),
{
    let left = Entity {
        id: 0,
        tag: None,
        x: -ARENA_HALF_EXTENT,
        y: 0,
        scale: SCALE_FULL,
        half_w: WALL_HALF_THICKNESS,
        half_h: WALL_HALF_LENGTH,
        collider: Some(Collider::Solid),
        material: assets.wall_material,
        fire_timer: None,
    };
    let right = Entity { x: ARENA_HALF_EXTENT, ..left };
    let bottom = Entity {
        x: 0,
        y: -ARENA_HALF_EXTENT,
        half_w: WALL_HALF_LENGTH,
        half_h: WALL_HALF_THICKNESS,
        ..left
    };
    let top = Entity { y: ARENA_HALF_EXTENT, ..bottom };
    let ghost n0 = store.next_id as int;
    store.create(left);
    store.create(right);
    store.create(bottom);
    store.create(top);
    proof {
        assert(store.entities@ =~= old(store).entities@ + wall_entities(*assets, n0));
    }
}

/// The player ship at its starting place, with a fresh weapon cooldown and a
/// player collider.
pub open spec fn ship_entity(assets: Assets, id: u64) -> Entity {
    Entity {
        id,
        tag: Some(Tag::Ship),
        x: 0,
        y: SHIP_SPAWN_Y,
        scale: SCALE_SHIP,
        half_w: assets.ship_half_w,
        half_h: assets.ship_half_h,
        collider: Some(Collider::Player),
        material: assets.ship_material,
        fire_timer: Some(Timer { duration_ms: PLAYER_COOLDOWN_MS, elapsed_ms: 0 }),
    }
}

/// Creates the player ship once at startup.
pub fn spawn_ship(store: &mut EntityStore, assets: &Assets)
    requires
        old(store).next_id < u64::MAX,
    ensures
        final(store).entities@ == old(store).entities@.push(
            ship_entity(*assets, old(store).next_id),
        ),
        final(store).next_id == old(store).next_id + 1,
        final(store).staged@ == old(store).staged@,
        old(store).wf() ==> final(store).wf(),
{
    let cooldown = Timer::from_millis(PLAYER_COOLDOWN_MS);
    let proto = Entity {
        id: 0,
        tag: Some(Tag::Ship),
        x: 0,
        y: SHIP_SPAWN_Y,
        scale: SCALE_SHIP,
        half_w: assets.ship_half_w,
        half_h: assets.ship_half_h,
        collider: Some(Collider::Player),
        material: assets.ship_material,
        fire_timer: Some(cooldown),
    };
    let ghost n0 = store.next_id;
    store.create(proto);
    proof {
        assert(with_id(proto, n0) == ship_entity(*assets, n0));
    }
}

/// A fresh enemy at height `ENEMY_SPAWN_Y`, scorable, with its own fire
/// gate created atomically with it.
pub open spec fn new_enemy(assets: Assets, id: u64, x: i64) -> Entity {
    Entity {
        id,
        tag: Some(Tag::Enemy),
        x,
        y: ENEMY_SPAWN_Y,
        scale: SCALE_SHIP,
        half_w: assets.enemy_half_w,
        half_h: assets.enemy_half_h,
        collider: Some(Collider::Scorable),
        material: assets.enemy_material,
        fire_timer: Some(Timer { duration_ms: ENEMY_FIRE_INTERVAL_MS, elapsed_ms: 0 }),
    }
}

/// One spawner step: the entities, the next id and the spawn timer after the
/// timer is ticked and, where it finishes, one enemy at `(x, ENEMY_SPAWN_Y)`
/// is appended and the timer reset.
pub open spec fn spec_spawn(
    entities: Seq<Entity>,
    next_id: int,
    timer: Timer,
    assets: Assets,
    dt_ms: u64,
    x: i64,
) -> (Seq<Entity>, int, Timer) {
    let ticked = timer.spec_ticked(dt_ms);
    if ticked.spec_finished() {
        (
            entities.push(new_enemy(assets, next_id as u64, x)),
            next_id + 1,
            Timer { duration_ms: timer.duration_ms, elapsed_ms: 0 },
        )
    } else {
        (entities, next_id, ticked)
    }
}

/// Ticks the enemy spawn timer; where it finishes, creates one scorable
/// enemy at `(spawn_x, ENEMY_SPAWN_Y)` with a fresh fire gate, and resets
/// the timer.
pub fn spawn_enemy(
    store: &mut EntityStore,
    spawn_timer: &mut Timer,
    assets: &Assets,
    dt_ms: u64,
    spawn_x: i64,
)
    requires
        old(store).next_id < u64::MAX,
    ensures
        final(store).entities@ == spec_spawn(
            old(store).entities@,
            old(store).next_id as int,
            *old(spawn_timer),
            *assets,
            dt_ms,
            spawn_x,
        ).0,
        final(store).next_id as int == spec_spawn(
            old(store).entities@,
            old(store).next_id as int,
            *old(spawn_timer),
            *assets,
            dt_ms,
            spawn_x,
        ).1,
        *final(spawn_timer) == spec_spawn(
            old(store).entities@,
            old(store).next_id as int,
            *old(spawn_timer),
            *assets,
            dt_ms,
            spawn_x,
        ).2,
        final(store).staged@ == old(store).staged@,
        old(store).wf() ==> final(store).wf(),
        at_most_one_player_ship(old(store).entities@) ==> at_most_one_player_ship(
            final(store).entities@,
        ),
{
    let finished = spawn_timer.tick(dt_ms);
    if finished {
        let gate = Timer::from_millis(ENEMY_FIRE_INTERVAL_MS);
        let proto = Entity {
            id: 0,
            tag: Some(Tag::Enemy),
            x: spawn_x,
            y: ENEMY_SPAWN_Y,
            scale: SCALE_SHIP,
            half_w: assets.enemy_half_w,
            half_h: assets.enemy_half_h,
            collider: Some(Collider::Scorable),
            material: assets.enemy_material,
            fire_timer: Some(gate),
        };
        let ghost n0 = store.next_id;
        let ghost before = store.entities@;
        store.create(proto);
        proof {
            assert(with_id(proto, n0) == new_enemy(*assets, n0, spawn_x));
            if at_most_one_player_ship(before) {
                assert(!is_player_ship(with_id(proto, n0)));
                lemma_push_keeps_single_player_ship(before, with_id(proto, n0));
            }
        }
        spawn_timer.reset();
    }
}

/// Relies on rand::Rng::gen_range over the half-open range
/// `-ENEMY_X_RANGE..ENEMY_X_RANGE`: the sample lies in that range. The range
/// is non-empty and made of constants, so the call cannot panic.
#[verifier::external_body]
pub(crate) fn random_spawn_x() -> (x: i64)
    ensures
        -ENEMY_X_RANGE <= x < ENEMY_X_RANGE,
{
    rand::thread_rng().gen_range(-ENEMY_X_RANGE..ENEMY_X_RANGE)
}

} // verus!
