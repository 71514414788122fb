//! Input-driven ship movement, clamped to the arena interior.

use vstd::prelude::*;
use crate::entity::{Entity, is_ship, is_player_ship, at_most_one_player_ship,
    lemma_pointwise_keeps_single_player_ship};
use crate::store::{EntityStore, ids_unique, ids_below};
use crate::units::{
    SHIP_SPEED, SHIP_BOUND, spec_displacement, spec_clamp, displacement, sat_add, clamp,
};

verus! {

/// Held state of the directional keys and the fire key for one frame.
#[derive(Clone, Copy, Debug, PartialEq, Eq, Structural)]
pub struct InputState {
    pub left: bool,
    pub right: bool,
    pub up: bool,
    pub down: bool,
    pub fire: bool,
}

/// Net x displacement: each held direction contributes the full per-axis
/// distance `d` independently; opposite keys cancel.
pub open spec fn net_dx(input: InputState, d: int) -> int {
    (if input.right {
        d
    } else {
        0
    }) - (if input.left {
        d
    } else {
        0
    })
}

/// Net y displacement, as `net_dx`.
pub open spec fn net_dy(input: InputState, d: int) -> int {
    (if input.up {
        d
    } else {
        0
    }) - (if input.down {
        d
    } else {
        0
    })
}

/// A ship after one movement step: displaced by the held directions and
/// clamped to `[-SHIP_BOUND, SHIP_BOUND]` per axis. Anything that is not a
/// ship does not move.
pub open spec fn moved_ship(e: Entity, input: InputState, dt_ms: u64) -> Entity {
    if is_ship(e) {
        let d = spec_displacement(SHIP_SPEED, dt_ms);
        Entity {
            x: spec_clamp(e.x + net_dx(input, d), -SHIP_BOUND as int, SHIP_BOUND as int) as i64,
            y: spec_clamp(e.y + net_dy(input, d), -SHIP_BOUND as int, SHIP_BOUND as int) as i64,
            ..e
        }
    } else {
        e
    }
}

/// Every entity after one movement step, in order.
pub open spec fn moved_all(s: Seq<Entity>, input: InputState, dt_ms: u64) -> Seq<Entity>
    decreases s.len(),
{
    if s.len() == 0 {
        Seq::empty()
    } else {
        moved_all(s.drop_last(), input, dt_ms).push(moved_ship(s.last(), input, dt_ms))
    }
}

pub proof fn lemma_moved_all_index(s: Seq<Entity>, input: InputState, dt_ms: u64)
    ensures
        moved_all(s, input, dt_ms).len() == s.len(),
        forall|i: int|
            0 <= i < s.len() ==> moved_all(s, input, dt_ms)[i] == moved_ship(
                s[i],
                input,
                dt_ms,
            ),
    decreases s.len(),
{
    if s.len() > 0 {
        lemma_moved_all_index(s.drop_last(), input, dt_ms);
    }
}

/// If `e` is a ship, both its coordinates lie in the clamped arena interior.
pub open spec fn ship_in_bounds(e: Entity) -> bool {
    is_ship(e) ==> {
        &&& -SHIP_BOUND <= e.x <= SHIP_BOUND
        &&& -SHIP_BOUND <= e.y <= SHIP_BOUND
    }
}

/// Moves every ship by the held directions and clamps it to the arena
/// interior; no other entity, and nothing else in the store, changes. After
/// the step every ship lies in `[-SHIP_BOUND, SHIP_BOUND]` on both axes,
/// whatever the inputs and the elapsed time were.
pub fn ship_movement(store: &mut EntityStore, input: InputState, dt_ms: u64)
    ensures
        final(store).entities@ == moved_all(old(store).entities@, input, dt_ms),
        final(store).next_id == old(store).next_id,
        final(store).staged@ == old(store).staged@,
        forall|i: int|
            0 <= i < final(store).entities@.len() ==> ship_in_bounds(
                #[trigger] final(store).entities@[i],
            ),
        old(store).wf() ==> final(store).wf(),
        at_most_one_player_ship(old(store).entities@) ==> at_most_one_player_ship(
            final(store).entities@,
        ),
{
    let d = displacement(SHIP_SPEED, dt_ms);
    let n = store.entities.len();
    let mut out: Vec<Entity> = Vec::new();
    let mut i: usize = 0;
    while i < n
        invariant
            n == store.entities@.len(),
            0 <= i <= n,
            d == spec_displacement(SHIP_SPEED, dt_ms),
            0 <= d,
            out@ == moved_all(store.entities@.take(i as int), input, dt_ms),
        decreases n - i,
    {
        let e = store.entities[i];
        proof {
            assert(store.entities@.take(i + 1).drop_last() =~= store.entities@.take(i as int));
            assert(store.entities@.take(i + 1).last() == store.entities@[i as int]);
        }
        let moved = match e.tag {
            Some(crate::entity::Tag::Ship) => {
                let mut nx: i64 = 0;
                let mut ny: i64 = 0;
                if input.right {
                    nx = d;
                }
                if input.left {
                    nx = nx - d;
                }
                if input.up {
                    ny = d;
                }
                if input.down {
                    ny = ny - d;
                }
                let mut e2 = e;
                e2.x = clamp(sat_add(e.x, nx), -SHIP_BOUND, SHIP_BOUND);
                e2.y = clamp(sat_add(e.y, ny), -SHIP_BOUND, SHIP_BOUND);
                e2
            },
            _ => e,
        };
        out.push(moved);
        i = i + 1;
    }
    proof {
        assert(store.entities@.take(n as int) =~= store.entities@);
        lemma_moved_all_index(store.entities@, input, dt_ms);
        if store.wf() {
            let mv = moved_all(store.entities@, input, dt_ms);
            assert forall|a: int, b: int| 0 <= a < b < mv.len() implies mv[a].id != mv[b].id by {
                assert(mv[a] == moved_ship(store.entities@[a], input, dt_ms));
                assert(mv[b] == moved_ship(store.entities@[b], input, dt_ms));
            }
            assert forall|a: int| 0 <= a < mv.len() implies (#[trigger] mv[a]).id
                < store.next_id by {
                assert(mv[a] == moved_ship(store.entities@[a], input, dt_ms));
            }
            assert(ids_unique(mv));
            assert(ids_below(mv, store.next_id));
        }
        if at_most_one_player_ship(store.entities@) {
            let mv = moved_all(store.entities@, input, dt_ms);
            assert forall|k: int|
                0 <= k < mv.len() && is_player_ship(#[trigger] mv[k]) implies is_player_ship(
                store.entities@[k],
            ) by {
                assert(mv[k] == moved_ship(store.entities@[k], input, dt_ms));
            }
            lemma_pointwise_keeps_single_player_ship(store.entities@, mv);
        }
    }
    store.entities = out;
}

} // verus!
