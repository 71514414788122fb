//! The entity store: owns all live entities, hands out fresh ids, and
//! applies destruction in two phases.
//!
//! Systems that destroy entities while another query over the store may
//! still be in flight do not remove them at once: `destroy` only stages an
//! id, and `apply_destruction` removes every staged entity after the
//! system's pass is complete. Staging the same id twice is harmless: removal
//! depends only on which ids are staged, never on how often.

use vstd::prelude::*;
use crate::entity::{Entity, at_most_one_player_ship, has_player_ship, is_player_ship,
    lemma_push_keeps_single_player_ship};

verus! {

/// `e` with its id replaced.
pub open spec fn with_id(e: Entity, id: u64) -> Entity {
    Entity { id, ..e }
}

/// No two entities share an id.
pub open spec fn ids_unique(s: Seq<Entity>) -> bool {
    forall|i: int, j: int| 0 <= i < j < s.len() ==> s[i].id != s[j].id
}

/// Every id is below `bound`.
pub open spec fn ids_below(s: Seq<Entity>, bound: u64) -> bool {
    forall|i: int| 0 <= i < s.len() ==> s[i].id < bound
}

/// `entities` with every entity whose id is staged removed, order kept.
pub open spec fn remove_staged(entities: Seq<Entity>, staged: Seq<u64>) -> Seq<Entity>
    decreases entities.len(),
{
    if entities.len() == 0 {
        Seq::empty()
    } else if staged.contains(entities.last().id) {
        remove_staged(entities.drop_last(), staged)
    } else {
        remove_staged(entities.drop_last(), staged).push(entities.last())
    }
}

pub struct EntityStore {
    pub entities: Vec<Entity>,
    pub next_id: u64,
    pub staged: Vec<u64>,
}

impl EntityStore {
    /// Ids are pairwise distinct and below the next id to be handed out.
    pub open spec fn wf(self) -> bool {
        &&& ids_unique(self.entities@)
        &&& ids_below(self.entities@, self.next_id)
    }

    pub fn new() -> (s: EntityStore)
        ensures
            s.entities@ == Seq::<Entity>::empty(),
            s.next_id == 0,
            s.staged@ == Seq::<u64>::empty(),
            s.wf(),
    {
        EntityStore { entities: Vec::new(), next_id: 0, staged: Vec::new() }
    }

    /// Adds `proto` as a new entity under a fresh id and returns that id.
    pub fn create(&mut self, proto: Entity) -> (id: u64)
        requires
            old(self).next_id < u64::MAX,
        ensures
            final(self).entities@ == old(self).entities@.push(with_id(proto, old(self).next_id)),
            final(self).next_id == old(self).next_id + 1,
            final(self).staged@ == old(self).staged@,
            id == old(self).next_id,
            old(self).wf() ==> final(self).wf(),
    {
        let id = self.next_id;
        let mut e = proto;
        e.id = id;
        self.entities.push(e);
        self.next_id = self.next_id + 1;
        id
    }

    /// Stages `id` for destruction; the entity stays live until
    /// `apply_destruction`.
    pub fn destroy(&mut self, id: u64)
        ensures
            final(self).entities@ == old(self).entities@,
            final(self).next_id == old(self).next_id,
            final(self).staged@ == old(self).staged@.push(id),
    {
        self.staged.push(id);
    }

    /// Whether `id` is staged for destruction.
    pub fn is_staged(&self, id: u64) -> (r: bool)
        ensures
            r == self.staged@.contains(id),
    {
        let mut k: usize = 0;
        while k < self.staged.len()
            invariant
                0 <= k <= self.staged@.len(),
                forall|m: int| 0 <= m < k ==> self.staged@[m] != id,
            decreases self.staged@.len() - k,
        {
            if self.staged[k] == id {
                return true;
            }
            k = k + 1;
        }
        false
    }

    /// Removes every staged entity and clears the staged list. Safe whatever
    /// the staged list holds: ids staged twice or ids of entities already
    /// gone remove nothing further.
    pub fn apply_destruction(&mut self)
        ensures
            final(self).entities@ == remove_staged(old(self).entities@, old(self).staged@),
            final(self).next_id == old(self).next_id,
            final(self).staged@ == Seq::<u64>::empty(),
            old(self).wf() ==> final(self).wf(),
            at_most_one_player_ship(old(self).entities@) ==> at_most_one_player_ship(
                final(self).entities@,
            ),
    {
        let n = self.entities.len();
        let mut kept: Vec<Entity> = Vec::new();
        let mut i: usize = 0;
        while i < n
            invariant
                n == self.entities@.len(),
                0 <= i <= n,
                kept@ == remove_staged(self.entities@.take(i as int), self.staged@),
            decreases n - i,
        {
            let e = self.entities[i];
            proof {
                assert(self.entities@.take(i + 1).drop_last() =~= self.entities@.take(i as int));
                assert(self.entities@.take(i + 1).last() == self.entities@[i as int]);
            }
            if !self.is_staged(e.id) {
                kept.push(e);
            }
            i = i + 1;
        }
        proof {
            assert(self.entities@.take(n as int) =~= self.entities@);
            if old(self).wf() {
                lemma_remove_staged_wf(self.entities@, self.staged@, self.next_id);
            }
            if at_most_one_player_ship(self.entities@) {
                lemma_remove_staged_single_player_ship(self.entities@, self.staged@);
            }
        }
        self.entities = kept;
        self.staged = Vec::new();
    }
}

/// Every kept entity occurs in the input, and uniqueness and id bounds carry
/// over to the kept sequence.
pub proof fn lemma_remove_staged_wf(entities: Seq<Entity>, staged: Seq<u64>, bound: u64)
    requires
        ids_unique(entities),
        ids_below(entities, bound),
    ensures
        ids_unique(remove_staged(entities, staged)),
        ids_below(remove_staged(entities, staged), bound),
        forall|k: int|
            0 <= k < remove_staged(entities, staged).len() ==> entities.contains(
                #[trigger] remove_staged(entities, staged)[k],
            ),
    decreases entities.len(),
{
    if entities.len() > 0 {
        let prefix = entities.drop_last();
        lemma_remove_staged_wf(prefix, staged, bound);
        let r = remove_staged(entities, staged);
        let rp = remove_staged(prefix, staged);
        assert forall|k: int| 0 <= k < rp.len() implies entities.contains(#[trigger] rp[k]) by {
            let m = choose|m: int| 0 <= m < prefix.len() && prefix[m] == rp[k];
            assert(entities[m] == rp[k]);
        }
        if !staged.contains(entities.last().id) {
            assert forall|k: int| 0 <= k < r.len() implies entities.contains(#[trigger] r[k]) by {
                if k < rp.len() {
                    assert(r[k] == rp[k]);
                } else {
                    assert(r[k] == entities.last());
                    assert(entities[entities.len() - 1] == entities.last());
                }
            }
            assert forall|i: int, j: int| 0 <= i < j < r.len() implies r[i].id != r[j].id by {
                if j < rp.len() {
                } else {
                    let m = choose|m: int| 0 <= m < prefix.len() && prefix[m] == rp[i];
                    assert(entities[m] == rp[i]);
                    assert(entities[m].id != entities.last().id);
                }
            }
        }
    }
}

/// Every entity that survives removal occurs in the input sequence.
pub proof fn lemma_remove_staged_contains(entities: Seq<Entity>, staged: Seq<u64>)
    ensures
        forall|k: int|
            0 <= k < remove_staged(entities, staged).len() ==> entities.contains(
                #[trigger] remove_staged(entities, staged)[k],
            ),
    decreases entities.len(),
{
    if entities.len() > 0 {
        let prefix = entities.drop_last();
        lemma_remove_staged_contains(prefix, staged);
        let r = remove_staged(entities, staged);
        let rp = remove_staged(prefix, staged);
        assert forall|k: int| 0 <= k < r.len() implies entities.contains(#[trigger] r[k]) by {
            if k < rp.len() {
                let m = choose|m: int| 0 <= m < prefix.len() && prefix[m] == rp[k];
                assert(entities[m] == rp[k]);
                assert(r[k] == rp[k]);
            } else {
                assert(r[k] == entities.last());
                assert(entities[entities.len() - 1] == entities.last());
            }
        }
    }
}

/// Removal can neither duplicate nor invent a player ship: what survives is
/// a subsequence of the input.
pub proof fn lemma_remove_staged_single_player_ship(entities: Seq<Entity>, staged: Seq<u64>)
    requires
        at_most_one_player_ship(entities),
    ensures
        at_most_one_player_ship(remove_staged(entities, staged)),
        has_player_ship(remove_staged(entities, staged)) ==> has_player_ship(entities),
    decreases entities.len(),
{
    if entities.len() > 0 {
        let prefix = entities.drop_last();
        assert forall|i: int, j: int|
            0 <= i < prefix.len() && 0 <= j < prefix.len() && i != j && is_player_ship(
                #[trigger] prefix[i],
            ) implies !is_player_ship(#[trigger] prefix[j]) by {
            assert(prefix[i] == entities[i]);
            assert(prefix[j] == entities[j]);
        }
        lemma_remove_staged_single_player_ship(prefix, staged);
        let rest = remove_staged(prefix, staged);
        if has_player_ship(prefix) {
            let w = choose|w: int| 0 <= w < prefix.len() && is_player_ship(#[trigger] prefix[w]);
            assert(is_player_ship(entities[w]));
        }
        if !staged.contains(entities.last().id) {
            let kept = remove_staged(entities, staged);
            let last = entities.last();
            assert(entities[entities.len() - 1] == last);
            if is_player_ship(last) {
                assert forall|k: int| 0 <= k < rest.len() implies !is_player_ship(
                    #[trigger] rest[k],
                ) by {
                    if is_player_ship(rest[k]) {
                        assert(has_player_ship(rest));
                        let w = choose|w: int|
                            0 <= w < prefix.len() && is_player_ship(#[trigger] prefix[w]);
                        assert(is_player_ship(entities[w]));
                        assert(!is_player_ship(entities[entities.len() - 1]));
                    }
                }
                assert forall|i: int, j: int|
                    0 <= i < kept.len() && 0 <= j < kept.len() && i != j && is_player_ship(
                        #[trigger] kept[i],
                    ) implies !is_player_ship(#[trigger] kept[j]) by {
                    if i < rest.len() {
                        assert(kept[i] == rest[i]);
                    } else {
                        assert(j < rest.len());
                        assert(kept[j] == rest[j]);
                    }
                }
            } else {
                lemma_push_keeps_single_player_ship(rest, last);
            }
            if has_player_ship(kept) {
                let k = choose|k: int| 0 <= k < kept.len() && is_player_ship(#[trigger] kept[k]);
                if k < rest.len() {
                    assert(is_player_ship(rest[k]));
                    assert(has_player_ship(rest));
                } else {
                    assert(kept[k] == last);
                }
            }
        }
    }
}

/// Removal depends only on which ids are staged: two staged lists that hold
/// the same ids remove the same entities.
pub proof fn lemma_remove_staged_set(entities: Seq<Entity>, s1: Seq<u64>, s2: Seq<u64>)
    requires
        forall|id: u64| s1.contains(id) <==> s2.contains(id),
    ensures
        remove_staged(entities, s1) == remove_staged(entities, s2),
    decreases entities.len(),
{
    if entities.len() > 0 {
        lemma_remove_staged_set(entities.drop_last(), s1, s2);
    }
}

/// Law: destroying an entity twice is the same as destroying it once.
/// Staging an id a second time changes nothing about which entities
/// `apply_destruction` removes, so a stale staged destruction neither fails
/// nor removes anything further — and it cannot touch the score, which
/// destruction never reads or writes.
pub proof fn lemma_destroy_twice_idempotent(entities: Seq<Entity>, staged: Seq<u64>, id: u64)
    ensures
        remove_staged(entities, staged.push(id).push(id)) == remove_staged(
            entities,
            staged.push(id),
        ),
{
    let once = staged.push(id);
    let twice = once.push(id);
    assert forall|y: u64| once.contains(y) implies twice.contains(y) by {
        let i = choose|i: int| 0 <= i < once.len() && once[i] == y;
        assert(twice[i] == y);
    }
    assert forall|y: u64| twice.contains(y) implies once.contains(y) by {
        let i = choose|i: int| 0 <= i < twice.len() && twice[i] == y;
        if i < once.len() {
            assert(once[i] == y);
        } else {
            assert(y == id);
            assert(once[once.len() - 1] == id);
        }
    }
    lemma_remove_staged_set(entities, twice, once);
}

} // verus!
