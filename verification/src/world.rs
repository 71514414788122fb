//! The world and its fixed-order frame loop.
//!
//! One frame, in order: ship movement, enemy spawning, player fire, enemy
//! fire, projectile motion, offscreen culling (staged destructions applied),
//! collision resolution (staged destructions applied). The platform layer
//! supplies the elapsed milliseconds, the input snapshot and the viewport
//! height each tick, and reads the entities and the score back for drawing.

use vstd::prelude::*;
use crate::entity::{Entity, Assets, is_player_ship, at_most_one_player_ship};
use crate::store::{EntityStore, remove_staged, lemma_remove_staged_contains};
use crate::timer::Timer;
use crate::units::{ENEMY_SPAWN_INTERVAL_MS, ENEMY_X_RANGE};
use crate::movement::{InputState, moved_all, ship_movement, ship_in_bounds,
    lemma_moved_all_index};
use crate::spawn::{spec_spawn, spawn_enemy, setup_walls, spawn_ship, wall_entities, ship_entity,
    random_spawn_x};
use crate::weapon::{ships_ticked, spawned_lasers, fired_count, enemies_ticked,
    spawned_enemy_lasers, enemy_fired_count, shoot, enemy_shoot, lemma_ships_ticked_index,
    lemma_spawned_lasers_len, lemma_fired_count_bounds, lemma_enemies_ticked_index,
    lemma_spawned_enemy_lasers_len, lemma_enemy_fired_count_bounds, lemma_spawned_lasers_tags,
    lemma_spawned_enemy_lasers_tags};
use crate::motion::{projectiles_moved, moved_projectile, offscreen_ids, move_laser,
    clear_offscreen_lasers, lemma_projectiles_moved_index};
use crate::collision::{spec_collision, laser_collision_system};

verus! {

/// The state a frame reads and writes, as plain mathematical values.
pub ghost struct FrameModel {
    pub entities: Seq<Entity>,
    pub next_id: int,
    pub staged: Seq<u64>,
    pub score: u64,
    pub spawn_timer: Timer,
}

/// One whole frame on the model: the systems in their fixed order, with the
/// staged destructions applied after the culling pass and again after the
/// collision pass.
pub open spec fn spec_frame(
    m: FrameModel,
    assets: Assets,
    input: InputState,
    dt_ms: u64,
    window_height: i64,
    spawn_x: i64,
) -> FrameModel {
    let moved = moved_all(m.entities, input, dt_ms);
    let spawned = spec_spawn(moved, m.next_id, m.spawn_timer, assets, dt_ms, spawn_x);
    let after_player_fire = ships_ticked(spawned.0, input.fire, dt_ms) + spawned_lasers(
        spawned.0,
        assets,
        input.fire,
        dt_ms,
        spawned.1,
    );
    let id_after_player = spawned.1 + fired_count(spawned.0, input.fire, dt_ms);
    let after_enemy_fire = enemies_ticked(after_player_fire, dt_ms) + spawned_enemy_lasers(
        after_player_fire,
        assets,
        dt_ms,
        id_after_player,
    );
    let id_after_enemy = id_after_player + enemy_fired_count(after_player_fire, dt_ms);
    let flown = projectiles_moved(after_enemy_fire, dt_ms);
    let culled = remove_staged(flown, m.staged + offscreen_ids(flown, window_height as int));
    let resolved = spec_collision(culled, 0, Seq::empty(), m.score);
    FrameModel {
        entities: remove_staged(culled, resolved.0),
        next_id: id_after_enemy,
        staged: Seq::empty(),
        score: resolved.1,
        spawn_timer: spawned.2,
    }
}

/// The entities World::new leaves in the store: the four walls, then the
/// player ship.
pub open spec fn initial_entities(assets: Assets) -> Seq<Entity> {
    wall_entities(assets, 0) + seq![ship_entity(assets, 4)]
}

/// The whole game state: the entity store, the enemy spawn gate, the score
/// and the startup assets.
pub struct World {
    pub store: EntityStore,
    pub spawn_timer: Timer,
    pub score: u64,
    pub assets: Assets,
}

impl World {
    /// The world as a frame model.
    pub open spec fn model(self) -> FrameModel {
        FrameModel {
            entities: self.store.entities@,
            next_id: self.store.next_id as int,
            staged: self.store.staged@,
            score: self.score,
            spawn_timer: self.spawn_timer,
        }
    }

    /// Enough id headroom for the at most `3 * len + 4` entities one frame
    /// can create before ids would wrap.
    pub open spec fn ids_fit(self) -> bool {
        self.store.next_id + 3 * self.store.entities@.len() + 4 <= u64::MAX
    }

    /// Sets up the arena walls, the enemy spawn gate and the player ship;
    /// the score starts at zero.
    pub fn new(assets: Assets) -> (w: World)
        ensures
            w.store.entities@ == initial_entities(assets),
            w.store.next_id == 5,
            w.store.staged@ == Seq::<u64>::empty(),
            w.store.wf(),
            w.spawn_timer == (Timer { duration_ms: ENEMY_SPAWN_INTERVAL_MS, elapsed_ms: 0 }),
            w.score == 0,
            w.assets == assets,
            at_most_one_player_ship(w.store.entities@),
    {
        let mut store = EntityStore::new();
        setup_walls(&mut store, &assets);
        spawn_ship(&mut store, &assets);
        proof {
            assert(store.entities@ =~= initial_entities(assets));
            let s = initial_entities(assets);
            assert forall|i: int, j: int|
                0 <= i < s.len() && 0 <= j < s.len() && i != j && is_player_ship(
                    #[trigger] s[i],
                ) implies !is_player_ship(#[trigger] s[j]) by {
                if i != 4 {
                    assert(s[i] == wall_entities(assets, 0)[i]);
                    assert(!is_player_ship(s[i]));
                }
                if j != 4 {
                    assert(s[j] == wall_entities(assets, 0)[j]);
                    assert(!is_player_ship(s[j]));
                }
            }
        }
        let spawn_timer = Timer::from_millis(ENEMY_SPAWN_INTERVAL_MS);
        World { store, spawn_timer, score: 0, assets }
    }

    /// Current score, the read path for the score display.
    pub fn current_score(&self) -> (s: u64)
        ensures
            s == self.score,
    {
        self.score
    }

    /// One frame with the enemy spawn x given by the caller; deterministic.
    pub fn frame_step(&mut self, input: InputState, dt_ms: u64, window_height: i64, spawn_x: i64)
        requires
            old(self).ids_fit(),
        ensures
            final(self).model() == spec_frame(
                old(self).model(),
                old(self).assets,
                input,
                dt_ms,
                window_height,
                spawn_x,
            ),
            final(self).assets == old(self).assets,
            old(self).score <= final(self).score,
            old(self).store.wf() ==> final(self).store.wf(),
            at_most_one_player_ship(old(self).store.entities@) ==> at_most_one_player_ship(
                final(self).store.entities@,
            ),
            all_ships_in_bounds(final(self).store.entities@),
    {
        let ghost m0 = old(self).model();
        let ghost n0 = old(self).store.entities@.len() as int;
        proof {
            lemma_moved_all_index(m0.entities, input, dt_ms);
        }
        ship_movement(&mut self.store, input, dt_ms);
        spawn_enemy(&mut self.store, &mut self.spawn_timer, &self.assets, dt_ms, spawn_x);
        let ghost e2 = self.store.entities@;
        proof {
            assert(e2.len() <= n0 + 1);
            lemma_ships_ticked_index(e2, input.fire, dt_ms);
            lemma_spawned_lasers_len(e2, self.assets, input.fire, dt_ms, self.store.next_id as int);
            lemma_fired_count_bounds(e2, input.fire, dt_ms);
        }
        shoot(&mut self.store, &self.assets, input.fire, dt_ms);
        let ghost e3 = self.store.entities@;
        proof {
            assert(e3.len() <= 2 * n0 + 2);
            lemma_enemies_ticked_index(e3, dt_ms);
            lemma_spawned_enemy_lasers_len(e3, self.assets, dt_ms, self.store.next_id as int);
            lemma_enemy_fired_count_bounds(e3, dt_ms);
        }
        enemy_shoot(&mut self.store, &self.assets, dt_ms);
        move_laser(&mut self.store, dt_ms);
        clear_offscreen_lasers(&mut self.store, window_height);
        self.store.apply_destruction();
        laser_collision_system(&mut self.store, &mut self.score);
        self.store.apply_destruction();
        proof {
            lemma_frame_ships_in_bounds(m0, self.assets, input, dt_ms, window_height, spawn_x);
        }
    }

    /// One frame of the game: the enemy spawn x is drawn uniformly at
    /// random, so the outcome is one frame step for some x in the spawn
    /// range.
    pub fn frame(&mut self, input: InputState, dt_ms: u64, window_height: i64)
        requires
            old(self).ids_fit(),
        ensures
            exists|x: i64|
                -ENEMY_X_RANGE <= x < ENEMY_X_RANGE && final(self).model() == spec_frame(
                    old(self).model(),
                    old(self).assets,
                    input,
                    dt_ms,
                    window_height,
                    x,
                ),
            final(self).assets == old(self).assets,
            old(self).score <= final(self).score,
            old(self).store.wf() ==> final(self).store.wf(),
            at_most_one_player_ship(old(self).store.entities@) ==> at_most_one_player_ship(
                final(self).store.entities@,
            ),
            all_ships_in_bounds(final(self).store.entities@),
    {
        let x = random_spawn_x();
        self.frame_step(input, dt_ms, window_height, x);
    }
}

/// Every ship of `s` lies in the clamped arena interior.
pub open spec fn all_ships_in_bounds(s: Seq<Entity>) -> bool {
    forall|i: int| 0 <= i < s.len() ==> ship_in_bounds(#[trigger] s[i])
}

/// Law: whatever directions are held and however much time a frame covers,
/// a frame never leaves a ship outside `[-SHIP_BOUND, SHIP_BOUND]` on either
/// axis: the movement step clamps every ship into that box and no later
/// system of the frame moves a ship.
pub proof fn lemma_frame_ships_in_bounds(
    m: FrameModel,
    assets: Assets,
    input: InputState,
    dt_ms: u64,
    window_height: i64,
    spawn_x: i64,
)
    ensures
        all_ships_in_bounds(spec_frame(m, assets, input, dt_ms, window_height, spawn_x).entities),
{
    let moved = moved_all(m.entities, input, dt_ms);
    lemma_moved_all_index(m.entities, input, dt_ms);
    assert(all_ships_in_bounds(moved));
    let spawned = spec_spawn(moved, m.next_id, m.spawn_timer, assets, dt_ms, spawn_x);
    assert(all_ships_in_bounds(spawned.0));
    let ticked = ships_ticked(spawned.0, input.fire, dt_ms);
    let lasers = spawned_lasers(spawned.0, assets, input.fire, dt_ms, spawned.1);
    lemma_ships_ticked_index(spawned.0, input.fire, dt_ms);
    lemma_spawned_lasers_tags(spawned.0, assets, input.fire, dt_ms, spawned.1);
    let after_player_fire = ticked + lasers;
    assert forall|i: int| 0 <= i < after_player_fire.len() implies ship_in_bounds(
        #[trigger] after_player_fire[i],
    ) by {
        if i < ticked.len() {
            assert(after_player_fire[i] == ticked[i]);
        } else {
            assert(after_player_fire[i] == lasers[i - ticked.len()]);
        }
    }
    let eticked = enemies_ticked(after_player_fire, dt_ms);
    let elasers = spawned_enemy_lasers(
        after_player_fire,
        assets,
        dt_ms,
        spawned.1 + fired_count(spawned.0, input.fire, dt_ms),
    );
    lemma_enemies_ticked_index(after_player_fire, dt_ms);
    lemma_spawned_enemy_lasers_tags(
        after_player_fire,
        assets,
        dt_ms,
        spawned.1 + fired_count(spawned.0, input.fire, dt_ms),
    );
    let after_enemy_fire = eticked + elasers;
    assert forall|i: int| 0 <= i < after_enemy_fire.len() implies ship_in_bounds(
        #[trigger] after_enemy_fire[i],
    ) by {
        if i < eticked.len() {
            assert(after_enemy_fire[i] == eticked[i]);
        } else {
            assert(after_enemy_fire[i] == elasers[i - eticked.len()]);
        }
    }
    let flown = projectiles_moved(after_enemy_fire, dt_ms);
    lemma_projectiles_moved_index(after_enemy_fire, dt_ms);
    assert(all_ships_in_bounds(flown));
    let culled = remove_staged(flown, m.staged + offscreen_ids(flown, window_height as int));
    lemma_remove_staged_contains(flown, m.staged + offscreen_ids(flown, window_height as int));
    assert forall|i: int| 0 <= i < culled.len() implies ship_in_bounds(#[trigger] culled[i]) by {
        let k = choose|k: int| 0 <= k < flown.len() && flown[k] == culled[i];
        assert(ship_in_bounds(flown[k]));
    }
    let resolved = spec_collision(culled, 0, Seq::empty(), m.score);
    let kept = remove_staged(culled, resolved.0);
    lemma_remove_staged_contains(culled, resolved.0);
    assert forall|i: int| 0 <= i < kept.len() implies ship_in_bounds(#[trigger] kept[i]) by {
        let k = choose|k: int| 0 <= k < culled.len() && culled[k] == kept[i];
        assert(ship_in_bounds(culled[k]));
    }
}

} // verus!
