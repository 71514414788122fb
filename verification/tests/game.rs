use space_shooter::collision::{collide, laser_collision_system};
use space_shooter::entity::{Assets, Collider, Entity, Tag};
use space_shooter::motion::{clear_offscreen_lasers, move_laser};
use space_shooter::movement::{ship_movement, InputState};
use space_shooter::spawn::{spawn_enemy, spawn_ship};
use space_shooter::store::EntityStore;
use space_shooter::timer::Timer;
use space_shooter::units::{
    ENEMY_SPAWN_INTERVAL_MS, ENEMY_SPAWN_Y, ENEMY_X_RANGE, SHIP_BOUND, SHIP_SPAWN_Y,
};
use space_shooter::weapon::{enemy_shoot, shoot};
use space_shooter::world::World;

fn test_assets() -> Assets {
    Assets {
        ship_material: 1,
        enemy_material: 2,
        laser_material: 3,
        enemy_laser_material: 4,
        wall_material: 5,
        ship_half_w: 40_000,
        ship_half_h: 40_000,
        enemy_half_w: 8_000,
        enemy_half_h: 8_000,
        laser_half_w: 8_000,
        laser_half_h: 8_000,
        enemy_laser_half_w: 8_000,
        enemy_laser_half_h: 8_000,
    }
}

fn idle() -> InputState {
    InputState { left: false, right: false, up: false, down: false, fire: false }
}

fn plain_entity(tag: Option<Tag>, x: i64, y: i64, half: i64, collider: Option<Collider>) -> Entity {
    Entity {
        id: 0,
        tag,
        x,
        y,
        scale: 1_000,
        half_w: half,
        half_h: half,
        collider,
        material: 0,
        fire_timer: None,
    }
}

fn count_tag(store: &EntityStore, tag: Tag) -> usize {
    store.entities.iter().filter(|e| e.tag == Some(tag)).count()
}

#[test]
fn spawn_timer_exactly_two_seconds_spawns_one_enemy() {
    let assets = test_assets();
    let mut store = EntityStore::new();
    let mut timer = Timer::from_millis(ENEMY_SPAWN_INTERVAL_MS);
    for _ in 0..3 {
        spawn_enemy(&mut store, &mut timer, &assets, 500, 12_345);
        assert_eq!(store.entities.len(), 0);
    }
    spawn_enemy(&mut store, &mut timer, &assets, 500, 12_345);
    assert_eq!(store.entities.len(), 1);
    let enemy = &store.entities[0];
    assert_eq!(enemy.tag, Some(Tag::Enemy));
    assert_eq!(enemy.x, 12_345);
    assert_eq!(enemy.y, ENEMY_SPAWN_Y);
    assert_eq!(enemy.collider, Some(Collider::Scorable));
    let gate = enemy.fire_timer.expect("an enemy owns a fire gate");
    assert_eq!(gate.duration_ms, 1_500);
    assert_eq!(gate.elapsed_ms, 0);
    assert_eq!(timer.elapsed_ms, 0);
}

#[test]
fn spawn_timer_under_two_seconds_spawns_none() {
    let assets = test_assets();
    let mut store = EntityStore::new();
    let mut timer = Timer::from_millis(ENEMY_SPAWN_INTERVAL_MS);
    spawn_enemy(&mut store, &mut timer, &assets, 1_000, 0);
    spawn_enemy(&mut store, &mut timer, &assets, 990, 0);
    assert_eq!(store.entities.len(), 0);
    assert_eq!(timer.elapsed_ms, 1_990);
}

#[test]
fn cooldown_gates_first_shot_at_four_tenths() {
    let assets = test_assets();
    let mut store = EntityStore::new();
    spawn_ship(&mut store, &assets);
    for _ in 0..3 {
        shoot(&mut store, &assets, true, 100);
        assert_eq!(count_tag(&store, Tag::Laser), 0);
    }
    shoot(&mut store, &assets, true, 100);
    assert_eq!(count_tag(&store, Tag::Laser), 1);
    let laser = &store.entities[1];
    assert_eq!(laser.x, 0);
    assert_eq!(laser.y, SHIP_SPAWN_Y + 64_000);
    assert_eq!(laser.collider, Some(Collider::Projectile));
    let cooldown = store.entities[0].fire_timer.expect("the ship keeps its cooldown");
    assert_eq!(cooldown.elapsed_ms, 0);
}

#[test]
fn cooldown_ticks_only_while_fire_is_held() {
    let assets = test_assets();
    let mut store = EntityStore::new();
    spawn_ship(&mut store, &assets);
    for _ in 0..3 {
        shoot(&mut store, &assets, false, 1_000);
    }
    assert_eq!(count_tag(&store, Tag::Laser), 0);
    shoot(&mut store, &assets, true, 300);
    assert_eq!(count_tag(&store, Tag::Laser), 0);
    shoot(&mut store, &assets, true, 100);
    assert_eq!(count_tag(&store, Tag::Laser), 1);
}

#[test]
fn overlapping_boxes_hit_and_separate_boxes_miss() {
    let laser = plain_entity(Some(Tag::Laser), 0, 0, 8_000, Some(Collider::Projectile));
    let near = plain_entity(Some(Tag::Enemy), 5_000, 5_000, 8_000, Some(Collider::Scorable));
    let far = plain_entity(Some(Tag::Enemy), 20_000, 20_000, 8_000, Some(Collider::Scorable));
    assert!(collide(&laser, &near));
    assert!(!collide(&laser, &far));
}

#[test]
fn laser_scores_and_both_entities_are_removed() {
    let mut store = EntityStore::new();
    store.create(plain_entity(Some(Tag::Laser), 0, 0, 8_000, Some(Collider::Projectile)));
    store.create(plain_entity(Some(Tag::Enemy), 5_000, 5_000, 8_000, Some(Collider::Scorable)));
    let mut score: u64 = 0;
    laser_collision_system(&mut store, &mut score);
    assert_eq!(score, 1);
    store.apply_destruction();
    assert_eq!(store.entities.len(), 0);
}

#[test]
fn separate_boxes_leave_score_and_entities_alone() {
    let mut store = EntityStore::new();
    store.create(plain_entity(Some(Tag::Laser), 0, 0, 8_000, Some(Collider::Projectile)));
    store.create(plain_entity(Some(Tag::Enemy), 20_000, 20_000, 8_000, Some(Collider::Scorable)));
    let mut score: u64 = 0;
    laser_collision_system(&mut store, &mut score);
    assert_eq!(score, 0);
    store.apply_destruction();
    assert_eq!(store.entities.len(), 2);
}

#[test]
fn destroying_twice_removes_once_and_does_not_crash() {
    let mut store = EntityStore::new();
    let first = store.create(plain_entity(None, 0, 0, 1_000, Some(Collider::Solid)));
    store.create(plain_entity(None, 9_000, 0, 1_000, Some(Collider::Solid)));
    store.destroy(first);
    store.destroy(first);
    store.apply_destruction();
    assert_eq!(store.entities.len(), 1);
    assert_ne!(store.entities[0].id, first);
    store.apply_destruction();
    assert_eq!(store.entities.len(), 1);
}

#[test]
fn staged_target_is_not_scored_twice() {
    let mut store = EntityStore::new();
    store.create(plain_entity(Some(Tag::Laser), 0, 0, 8_000, Some(Collider::Projectile)));
    store.create(plain_entity(Some(Tag::Laser), 1_000, 0, 8_000, Some(Collider::Projectile)));
    store.create(plain_entity(Some(Tag::Enemy), 0, 5_000, 8_000, Some(Collider::Scorable)));
    let mut score: u64 = 0;
    laser_collision_system(&mut store, &mut score);
    assert_eq!(score, 1);
    store.apply_destruction();
    assert_eq!(store.entities.len(), 1);
    assert_eq!(store.entities[0].tag, Some(Tag::Laser));
    laser_collision_system(&mut store, &mut score);
    assert_eq!(score, 1);
}

#[test]
fn ship_movement_clamps_to_arena_interior() {
    let assets = test_assets();
    let mut store = EntityStore::new();
    spawn_ship(&mut store, &assets);
    let right = InputState { right: true, ..idle() };
    ship_movement(&mut store, right, 10_000);
    assert_eq!(store.entities[0].x, SHIP_BOUND);
    assert_eq!(store.entities[0].y, SHIP_SPAWN_Y);
    let left = InputState { left: true, ..idle() };
    ship_movement(&mut store, left, 10_000);
    assert_eq!(store.entities[0].x, -SHIP_BOUND);
}

#[test]
fn diagonal_movement_is_additive_per_axis() {
    let assets = test_assets();
    let mut store = EntityStore::new();
    spawn_ship(&mut store, &assets);
    let diagonal = InputState { right: true, up: true, ..idle() };
    ship_movement(&mut store, diagonal, 100);
    assert_eq!(store.entities[0].x, 25_000);
    assert_eq!(store.entities[0].y, SHIP_SPAWN_Y + 25_000);
}

#[test]
fn lasers_fly_up_and_are_culled_past_two_fifths_of_the_viewport() {
    let assets = test_assets();
    let mut store = EntityStore::new();
    spawn_ship(&mut store, &assets);
    shoot(&mut store, &assets, true, 400);
    assert_eq!(count_tag(&store, Tag::Laser), 1);
    move_laser(&mut store, 1_000);
    assert_eq!(store.entities[1].y, SHIP_SPAWN_Y + 64_000 + 700_000);
    clear_offscreen_lasers(&mut store, 1_000_000);
    store.apply_destruction();
    assert_eq!(count_tag(&store, Tag::Laser), 0);
    assert_eq!(count_tag(&store, Tag::Ship), 1);
}

#[test]
fn enemy_lasers_fly_down_and_are_never_culled_below() {
    let assets = test_assets();
    let mut store = EntityStore::new();
    let mut gate = Timer::from_millis(0);
    spawn_enemy(&mut store, &mut gate, &assets, 0, 5_000);
    enemy_shoot(&mut store, &assets, 1_500);
    assert_eq!(count_tag(&store, Tag::EnemyLaser), 1);
    let laser = &store.entities[1];
    assert_eq!(laser.x, 5_000);
    assert_eq!(laser.y, ENEMY_SPAWN_Y - 64_000);
    move_laser(&mut store, 1_000);
    assert_eq!(store.entities[1].y, ENEMY_SPAWN_Y - 64_000 - 700_000);
    clear_offscreen_lasers(&mut store, 100_000);
    store.apply_destruction();
    assert_eq!(count_tag(&store, Tag::EnemyLaser), 1);
}

#[test]
fn new_world_holds_four_walls_and_the_ship() {
    let assets = test_assets();
    let w = World::new(assets);
    assert_eq!(w.store.entities.len(), 5);
    assert_eq!(w.score, 0);
    assert_eq!(w.store.next_id, 5);
    for wall in &w.store.entities[0..4] {
        assert_eq!(wall.collider, Some(Collider::Solid));
        assert_eq!(wall.tag, None);
    }
    assert_eq!(w.store.entities[0].x, -350_000);
    assert_eq!(w.store.entities[1].x, 350_000);
    assert_eq!(w.store.entities[2].y, -350_000);
    assert_eq!(w.store.entities[3].y, 350_000);
    let ship = &w.store.entities[4];
    assert_eq!(ship.tag, Some(Tag::Ship));
    assert_eq!(ship.x, 0);
    assert_eq!(ship.y, SHIP_SPAWN_Y);
    assert_eq!(ship.collider, Some(Collider::Player));
    let cooldown = ship.fire_timer.expect("the ship owns a cooldown");
    assert_eq!(cooldown.duration_ms, 400);
}

#[test]
fn frame_spawns_exactly_one_enemy_once_the_gate_fills() {
    let assets = test_assets();
    let mut w = World::new(assets);
    w.frame_step(idle(), 1_000, 10_000_000, 7_000);
    w.frame_step(idle(), 999, 10_000_000, 7_000);
    assert_eq!(count_tag(&w.store, Tag::Enemy), 0);
    w.frame_step(idle(), 1, 10_000_000, 7_000);
    assert_eq!(count_tag(&w.store, Tag::Enemy), 1);
    w.frame_step(idle(), 1, 10_000_000, 7_000);
    assert_eq!(count_tag(&w.store, Tag::Enemy), 1);
}

#[test]
fn random_enemy_spawn_stays_in_the_spawn_range() {
    let assets = test_assets();
    let mut w = World::new(assets);
    w.frame(idle(), 2_000, 10_000_000);
    assert_eq!(count_tag(&w.store, Tag::Enemy), 1);
    let enemy = w.store.entities.iter().find(|e| e.tag == Some(Tag::Enemy)).unwrap();
    assert!(-ENEMY_X_RANGE <= enemy.x && enemy.x < ENEMY_X_RANGE);
}

#[test]
fn walls_stay_put_and_score_never_drops_over_a_long_session() {
    let assets = test_assets();
    let mut w = World::new(assets);
    let mut last_score: u64 = 0;
    for f in 0..200u64 {
        let input = InputState {
            left: f % 3 == 0,
            right: f % 2 == 0,
            up: f % 5 == 0,
            down: f % 7 == 0,
            fire: true,
        };
        let x = (f as i64) * 1_000 - 100_000;
        w.frame_step(input, 250, 10_000_000, x);
        assert!(w.current_score() >= last_score);
        last_score = w.current_score();
        for wall in &w.store.entities[0..4] {
            assert_eq!(wall.collider, Some(Collider::Solid));
        }
        assert_eq!(w.store.entities[0].x, -350_000);
        assert_eq!(w.store.entities[1].x, 350_000);
        assert_eq!(w.store.entities[2].y, -350_000);
        assert_eq!(w.store.entities[3].y, 350_000);
    }
}

#[test]
fn one_frame_hit_moves_the_score_from_zero_to_one() {
    let mut assets = test_assets();
    assets.laser_half_w = 500_000;
    assets.laser_half_h = 500_000;
    assets.enemy_half_w = 500_000;
    assets.enemy_half_h = 500_000;
    let mut w = World::new(assets);
    let fire = InputState { fire: true, ..idle() };
    w.frame_step(fire, 2_000, 10_000_000, 0);
    assert_eq!(w.current_score(), 1);
    assert_eq!(count_tag(&w.store, Tag::Enemy), 0);
    assert_eq!(count_tag(&w.store, Tag::Laser), 0);
    assert_eq!(count_tag(&w.store, Tag::Ship), 1);
    assert_eq!(count_tag(&w.store, Tag::EnemyLaser), 1);
    assert_eq!(w.store.entities.len(), 6);
}
