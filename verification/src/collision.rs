//! Axis-aligned bounding-box collision between player lasers and scorable
//! targets.
//!
//! Each live player laser is tested, in store order, against every entity
//! that carries a collider. Hits against player, solid or projectile
//! colliders are evaluated but produce no effect; the first hit against a
//! scorable collider that is not already staged for destruction destroys the
//! target, adds one to the score, destroys the laser and ends the checks for
//! that laser, so a laser scores at most once and an already-destroyed
//! target is never scored again.

use vstd::prelude::*;
use crate::entity::{Entity, Tag, Collider, is_laser, is_scorable};
use crate::store::EntityStore;
use crate::timer::sat_add_u64;

verus! {

/// Whether the boxes of `a` and `b` share a region of non-zero area: both
/// axis projections overlap strictly.
pub open spec fn spec_overlap(a: Entity, b: Entity) -> bool {
    &&& a.x - b.x < a.half_w + b.half_w
    &&& b.x - a.x < a.half_w + b.half_w
    &&& a.y - b.y < a.half_h + b.half_h
    &&& b.y - a.y < a.half_h + b.half_h
}

/// Separating-axis overlap test on the two entities' positions and sprite
/// half-extents.
pub fn collide(a: &Entity, b: &Entity) -> (r: bool)
    ensures
        r == spec_overlap(*a, *b),
{
    let wsum: i128 = a.half_w as i128 + b.half_w as i128;
    let hsum: i128 = a.half_h as i128 + b.half_h as i128;
    (a.x as i128) - (b.x as i128) < wsum && (b.x as i128) - (a.x as i128) < wsum && (a.y as i128)
        - (b.y as i128) < hsum && (b.y as i128) - (a.y as i128) < hsum
}

/// Index of the first entity from `j` on that `laser` scores against: a
/// scorable collider, not staged for destruction, whose box overlaps the
/// laser's.
pub open spec fn first_hit(s: Seq<Entity>, laser: Entity, staged: Seq<u64>, j: int) -> Option<int>
    decreases s.len() - j,
{
    if j < 0 || j >= s.len() {
        None
    } else if is_scorable(s[j]) && !staged.contains(s[j].id) && spec_overlap(laser, s[j]) {
        Some(j)
    } else {
        first_hit(s, laser, staged, j + 1)
    }
}

/// The staged ids and the score after the lasers from index `i` on have
/// been resolved: each live laser that scores stages its target and itself
/// and adds one to the score (saturating), and later lasers see the updated
/// staged ids, so no target is scored twice in one pass.
pub open spec fn spec_collision(s: Seq<Entity>, i: int, staged: Seq<u64>, score: u64) -> (
    Seq<u64>,
    u64,
)
    decreases s.len() - i,
{
    if i < 0 || i >= s.len() {
        (staged, score)
    } else {
        let e = s[i];
        if is_laser(e) && !staged.contains(e.id) {
            match first_hit(s, e, staged, 0) {
                Some(j) => spec_collision(
                    s,
                    i + 1,
                    staged.push(s[j].id).push(e.id),
                    sat_add_u64(score, 1),
                ),
                None => spec_collision(s, i + 1, staged, score),
            }
        } else {
            spec_collision(s, i + 1, staged, score)
        }
    }
}

/// Resolving collisions never lowers the score.
pub proof fn lemma_collision_score_monotonic(s: Seq<Entity>, i: int, staged: Seq<u64>, score: u64)
    ensures
        score <= spec_collision(s, i, staged, score).1,
    decreases s.len() - i,
{
    if 0 <= i < s.len() {
        let e = s[i];
        if is_laser(e) && !staged.contains(e.id) {
            match first_hit(s, e, staged, 0) {
                Some(j) => {
                    lemma_collision_score_monotonic(
                        s,
                        i + 1,
                        staged.push(s[j].id).push(e.id),
                        sat_add_u64(score, 1),
                    );
                },
                None => {
                    lemma_collision_score_monotonic(s, i + 1, staged, score);
                },
            }
        } else {
            lemma_collision_score_monotonic(s, i + 1, staged, score);
        }
    }
}

/// First entity that `laser` scores against, under the store's current
/// staged ids.
fn find_first_hit(store: &EntityStore, laser: &Entity) -> (r: Option<usize>)
    ensures
        match r {
            Some(j) => 0 <= j < store.entities@.len() && first_hit(
                store.entities@,
                *laser,
                store.staged@,
                0,
            ) == Some(j as int),
            None => first_hit(store.entities@, *laser, store.staged@, 0) is None,
        },
{
    let n = store.entities.len();
    let mut j: usize = 0;
    while j < n
        invariant
            n == store.entities@.len(),
            0 <= j <= n,
            first_hit(store.entities@, *laser, store.staged@, 0) == first_hit(
                store.entities@,
                *laser,
                store.staged@,
                j as int,
            ),
        decreases n - j,
    {
        let c = store.entities[j];
        let scorable = match c.collider {
            Some(Collider::Scorable) => true,
            _ => false,
        };
        if scorable && !store.is_staged(c.id) && collide(laser, &c) {
            return Some(j);
        }
        j = j + 1;
    }
    None
}

/// Resolves every live player laser against the colliders, staging the
/// destroyed entities and raising the score as `spec_collision` says.
/// Entities are not removed here: the staged ids are applied after the pass.
pub fn laser_collision_system(store: &mut EntityStore, score: &mut u64)
    ensures
        final(store).entities@ == old(store).entities@,
        final(store).next_id == old(store).next_id,
        final(store).staged@ == spec_collision(
            old(store).entities@,
            0,
            old(store).staged@,
            *old(score),
        ).0,
        *final(score) == spec_collision(
            old(store).entities@,
            0,
            old(store).staged@,
            *old(score),
        ).1,
        *old(score) <= *final(score),
        old(store).wf() ==> final(store).wf(),
        crate::entity::at_most_one_player_ship(old(store).entities@)
            ==> crate::entity::at_most_one_player_ship(final(store).entities@),
{
    proof {
        lemma_collision_score_monotonic(store.entities@, 0, store.staged@, *score);
    }
    let n = store.entities.len();
    let mut i: usize = 0;
    while i < n
        invariant
            n == store.entities@.len(),
            0 <= i <= n,
            store.entities@ == old(store).entities@,
            store.next_id == old(store).next_id,
            spec_collision(store.entities@, i as int, store.staged@, *score) == spec_collision(
                old(store).entities@,
                0,
                old(store).staged@,
                *old(score),
            ),
        decreases n - i,
    {
        let e = store.entities[i];
        let laser = match e.tag {
            Some(Tag::Laser) => true,
            _ => false,
        };
        if laser && !store.is_staged(e.id) {
            match find_first_hit(store, &e) {
                Some(j) => {
                    let target = store.entities[j];
                    store.destroy(target.id);
                    if *score < u64::MAX {
                        *score = *score + 1;
                    }
                    store.destroy(e.id);
                },
                None => {},
            }
        }
        i = i + 1;
    }
}

} // verus!
