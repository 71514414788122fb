//! Entities and their components.
//!
//! An entity groups a transform (position and scale), a sprite half-extent
//! pair used for collision, an optional role tag, an optional collider kind,
//! an opaque material handle the platform layer resolves for drawing, and an
//! optional fire timer (the weapon cooldown of a ship, the fire gate of an
//! enemy).

use vstd::prelude::*;
use crate::timer::Timer;

verus! {

/// Role of an entity; at most one per entity, never combined.
#[derive(Clone, Copy, Debug, PartialEq, Eq, Structural)]
pub enum Tag {
    Ship,
    Enemy,
    Laser,
    EnemyLaser,
}

/// Collision semantics of an entity.
#[derive(Clone, Copy, Debug, PartialEq, Eq, Structural)]
pub enum Collider {
    Player,
    Solid,
    Projectile,
    Scorable,
}

/// One live entity with all its components.
///
/// Positions, scale and half-extents are in milliunits. The material is an
/// opaque handle supplied by the platform layer at creation and passed back
/// unread when the entity is drawn.
#[derive(Clone, Copy, Debug)]
pub struct Entity {
    pub id: u64,
    pub tag: Option<Tag>,
    pub x: i64,
    pub y: i64,
    pub scale: i64,
    pub half_w: i64,
    pub half_h: i64,
    pub collider: Option<Collider>,
    pub material: u64,
    pub fire_timer: Option<Timer>,
}

/// Opaque material handles the platform layer resolved at startup, and the
/// sprite half-extents of each texture, handed to entity creation unread.
#[derive(Clone, Copy, Debug)]
pub struct Assets {
    pub ship_material: u64,
    pub enemy_material: u64,
    pub laser_material: u64,
    pub enemy_laser_material: u64,
    pub wall_material: u64,
    pub ship_half_w: i64,
    pub ship_half_h: i64,
    pub enemy_half_w: i64,
    pub enemy_half_h: i64,
    pub laser_half_w: i64,
    pub laser_half_h: i64,
    pub enemy_laser_half_w: i64,
    pub enemy_laser_half_h: i64,
}

pub open spec fn is_ship(e: Entity) -> bool {
    e.tag == Some(Tag::Ship)
}

pub open spec fn is_enemy(e: Entity) -> bool {
    e.tag == Some(Tag::Enemy)
}

pub open spec fn is_laser(e: Entity) -> bool {
    e.tag == Some(Tag::Laser)
}

pub open spec fn is_enemy_laser(e: Entity) -> bool {
    e.tag == Some(Tag::EnemyLaser)
}

/// Projectiles of either kind are subject to offscreen culling.
pub open spec fn is_projectile(e: Entity) -> bool {
    is_laser(e) || is_enemy_laser(e)
}

/// Only scorable colliders react to being hit.
pub open spec fn is_scorable(e: Entity) -> bool {
    e.collider == Some(Collider::Scorable)
}

/// The player: a ship carrying the player collider.
pub open spec fn is_player_ship(e: Entity) -> bool {
    is_ship(e) && e.collider == Some(Collider::Player)
}

/// No two positions of `s` hold a player ship.
pub open spec fn at_most_one_player_ship(s: Seq<Entity>) -> bool {
    forall|i: int, j: int|
        0 <= i < s.len() && 0 <= j < s.len() && i != j && is_player_ship(#[trigger] s[i])
            ==> !is_player_ship(#[trigger] s[j])
}

/// Some position of `s` holds a player ship.
pub open spec fn has_player_ship(s: Seq<Entity>) -> bool {
    exists|i: int| 0 <= i < s.len() && is_player_ship(#[trigger] s[i])
}

/// Appending something that is not a player ship cannot give a second one.
pub proof fn lemma_push_keeps_single_player_ship(s: Seq<Entity>, e: Entity)
    requires
        at_most_one_player_ship(s),
        !is_player_ship(e),
    ensures
        at_most_one_player_ship(s.push(e)),
{
    let p = s.push(e);
    assert forall|i: int, j: int|
        0 <= i < p.len() && 0 <= j < p.len() && i != j && is_player_ship(
            #[trigger] p[i],
        ) implies !is_player_ship(#[trigger] p[j]) by {
        if i < s.len() {
            assert(p[i] == s[i]);
            if j < s.len() {
                assert(p[j] == s[j]);
            } else {
                assert(p[j] == e);
            }
        } else {
            assert(p[i] == e);
        }
    }
}

/// Appending a block that holds no player ship cannot give a second one.
pub proof fn lemma_concat_keeps_single_player_ship(a: Seq<Entity>, b: Seq<Entity>)
    requires
        at_most_one_player_ship(a),
        forall|k: int| 0 <= k < b.len() ==> !is_player_ship(#[trigger] b[k]),
    ensures
        at_most_one_player_ship(a + b),
{
    let c = a + b;
    assert forall|i: int, j: int|
        0 <= i < c.len() && 0 <= j < c.len() && i != j && is_player_ship(
            #[trigger] c[i],
        ) implies !is_player_ship(#[trigger] c[j]) by {
        if i < a.len() {
            assert(c[i] == a[i]);
            if j < a.len() {
                assert(c[j] == a[j]);
            } else {
                assert(c[j] == b[j - a.len()]);
            }
        } else {
            assert(c[i] == b[i - a.len()]);
        }
    }
}

/// A pass that turns a player ship only into an entity that was already a
/// player ship cannot give a second one.
pub proof fn lemma_pointwise_keeps_single_player_ship(a: Seq<Entity>, b: Seq<Entity>)
    requires
        a.len() == b.len(),
        forall|k: int|
            0 <= k < b.len() && is_player_ship(#[trigger] b[k]) ==> is_player_ship(a[k]),
        at_most_one_player_ship(a),
    ensures
        at_most_one_player_ship(b),
{
    assert forall|i: int, j: int|
        0 <= i < b.len() && 0 <= j < b.len() && i != j && is_player_ship(
            #[trigger] b[i],
        ) implies !is_player_ship(#[trigger] b[j]) by {
        assert(is_player_ship(a[i]));
        assert(!is_player_ship(a[j]));
    }
}

} // verus!
