//! The occupants of a level, cell by cell.
//!
//! A cell may hold any number of entries. Each entry names an entity and
//! says whether that entity stops movement and whether it stops sight.

use vstd::prelude::*;
use crate::geometry::Cell;
use crate::space::{cell_index, index_of, is_on_map, on_map, MAP_HEIGHT, MAP_WIDTH};

verus! {

/// The identity of an actor, an item or a fixture.
#[derive(Copy, Clone, Debug, PartialEq, Eq, Hash, Structural)]
pub struct Entity {
    pub index: u32,
    pub generation: i32,
}

/// An occupant of a cell: the entity, whether it stops movement, and
/// whether it stops sight.
#[derive(Copy, Clone, Debug, PartialEq, Eq, Structural)]
pub struct Entry(pub Entity, pub bool, pub bool);

/// The place of the first entry of `entity` in `entries`, if it has one.
pub open spec fn position_of(entries: Seq<Entry>, entity: Entity) -> Option<int>
    decreases entries.len(),
{
    if entries.len() == 0 {
        None
    } else if entries[0].0 == entity {
        Some(0int)
    } else {
        match position_of(entries.skip(1), entity) {
            Some(i) => Some(i + 1),
            None => None,
        }
    }
}

/// What [`position_of`] finds is the first entry of the entity; it finds
/// none only where there is none.
pub proof fn lemma_position_of(entries: Seq<Entry>, entity: Entity)
    ensures
        match position_of(entries, entity) {
            Some(i) => {
                &&& 0 <= i < entries.len()
                &&& entries[i].0 == entity
                &&& forall|j: int| 0 <= j < i ==> entries[j].0 != entity
            },
            None => forall|j: int| 0 <= j < entries.len() ==> entries[j].0 != entity,
        },
    decreases entries.len(),
{
    if entries.len() > 0 && entries[0].0 != entity {
        let rest = entries.skip(1);
        lemma_position_of(rest, entity);
        match position_of(rest, entity) {
            Some(i) => {
                assert forall|j: int| 0 <= j < i + 1 implies entries[j].0 != entity by {
                    if j > 0 {
                        assert(rest[j - 1] == entries[j]);
                    }
                }
            },
            None => {
                assert forall|j: int| 0 <= j < entries.len() implies entries[j].0 != entity by {
                    if j > 0 {
                        assert(rest[j - 1] == entries[j]);
                    }
                }
            },
        }
    }
}

/// The entries of a cell after the entry at `i` has been taken out: the
/// last entry takes its place.
pub open spec fn without(entries: Seq<Entry>, i: int) -> Seq<Entry> {
    entries.update(i, entries.last()).drop_last()
}

/// The entries of a cell after the blocking flag of the first entry of
/// `entity` has been set.
pub open spec fn with_blocking(entries: Seq<Entry>, entity: Entity, blocking: bool) -> Seq<
    Entry,
> {
    match position_of(entries, entity) {
        Some(i) => entries.update(i, Entry(entity, blocking, entries[i].2)),
        None => entries,
    }
}

/// The entries of a cell after the sight-blocking flag of the first entry
/// of `entity` has been set.
pub open spec fn with_sight_blocking(entries: Seq<Entry>, entity: Entity, blocking: bool) -> Seq<
    Entry,
> {
    match position_of(entries, entity) {
        Some(i) => entries.update(i, Entry(entity, entries[i].1, blocking)),
        None => entries,
    }
}

/// Finds the first entry of `entity`.
pub fn find_entry(entries: &Vec<Entry>, entity: &Entity) -> (r: Option<usize>)
    ensures
        match r {
            Some(i) => position_of(entries@, *entity) == Some(i as int),
            None => position_of(entries@, *entity).is_none(),
        },
{
    let mut i: usize = 0;
    while i < entries.len()
        invariant
            i <= entries.len(),
            forall|j: int| 0 <= j < i ==> entries@[j].0 != *entity,
        decreases entries.len() - i,
    {
        if entries[i].0 == *entity {
            proof {
                lemma_position_of(entries@, *entity);
            }
            return Some(i);
        }
        i = i + 1;
    }
    proof {
        lemma_position_of(entries@, *entity);
    }
    None
}

/// The occupants of a level, column by column.
pub struct EntityMap {
    pub map: Vec<Vec<Entry>>,
}

impl EntityMap {
    pub open spec fn wf(&self) -> bool {
        self.map@.len() == MAP_WIDTH * MAP_HEIGHT
    }

    /// The entries of a cell, oldest first; none off the map.
    pub open spec fn cell(&self, p: Cell) -> Seq<Entry> {
        if on_map(p) {
            self.map@[cell_index(p)]@
        } else {
            Seq::empty()
        }
    }

    /// Whether the entity has an entry in the cell.
    pub open spec fn holds_at(&self, entity: Entity, p: Cell) -> bool {
        exists|i: int| 0 <= i < self.cell(p).len() && (#[trigger] self.cell(p)[i]).0 == entity
    }

    /// Whether the entity has an entry in any cell.
    pub open spec fn holds(&self, entity: Entity) -> bool {
        exists|p: Cell| #[trigger] self.holds_at(entity, p)
    }

    /// Whether no entity has two entries, in one cell or in two.
    pub open spec fn each_once(&self) -> bool {
        forall|p: Cell, q: Cell, i: int, j: int|
            0 <= i < self.cell(p).len() && 0 <= j < self.cell(q).len() && (#[trigger] self.cell(
                p,
            )[i]).0 == (#[trigger] self.cell(q)[j]).0 ==> p == q && i == j
    }

    /// An index without occupants.
    pub fn new() -> (m: EntityMap)
        ensures
            m.wf(),
            forall|p: Cell| #[trigger] m.cell(p) == Seq::<Entry>::empty(),
            m.each_once(),
    {
        let mut map: Vec<Vec<Entry>> = Vec::new();
        let n: usize = (MAP_WIDTH as usize) * (MAP_HEIGHT as usize);
        while map.len() < n
            invariant
                n == MAP_WIDTH * MAP_HEIGHT,
                map@.len() <= n,
                forall|i: int| 0 <= i < map@.len() ==> map@[i]@ == Seq::<Entry>::empty(),
            decreases n - map@.len(),
        {
            map.push(Vec::new());
        }
        EntityMap { map }
    }

    /// Removes every occupant.
    pub fn clear(&mut self)
        ensures
            final(self).wf(),
            forall|p: Cell| #[trigger] final(self).cell(p) == Seq::<Entry>::empty(),
            final(self).each_once(),
    {
        *self = EntityMap::new();
    }

    /// Takes the first entry of `entity` out of the cell and returns it;
    /// the last entry of the cell takes its place.
    pub fn remove(&mut self, entity: &Entity, p: Cell) -> (r: Option<Entry>)
        requires
            old(self).wf(),
            on_map(p),
        ensures
            final(self).wf(),
            forall|q: Cell| q != p ==> #[trigger] final(self).cell(q) == old(self).cell(q),
            match position_of(old(self).cell(p), *entity) {
                Some(i) => r == Some(old(self).cell(p)[i]) && final(self).cell(p) == without(
                    old(self).cell(p),
                    i,
                ),
                None => r.is_none() && final(self).cell(p) == old(self).cell(p),
            },
            old(self).each_once() ==> final(self).each_once(),
            old(self).each_once() && r.is_some() ==> !final(self).holds(*entity),
    {
        let k = index_of(p);
        let found = find_entry(&self.map[k], entity);
        let r = match found {
            Some(i) => {
                proof {
                    lemma_position_of(self.cell(p), *entity);
                }
                Some(self.map[k].swap_remove(i))
            },
            None => None,
        };
        proof {
            assert forall|q: Cell| q != p implies #[trigger] final(self).cell(q) == old(self).cell(
                q,
            ) by {
                if on_map(q) {
                    assert(cell_index(q) != cell_index(p));
                }
            }
            if old(self).each_once() {
                lemma_position_of(old(self).cell(p), *entity);
                match position_of(old(self).cell(p), *entity) {
                    Some(i) => {
                        lemma_remove_keeps_once(old(self), self, p, i);
                    },
                    None => {
                        lemma_flags_keep_once(old(self), self, p);
                    },
                }
            }
        }
        r
    }

    /// Adds an entry to the cell.
    pub fn push_entry(&mut self, entry: Entry, p: Cell)
        requires
            old(self).wf(),
            on_map(p),
        ensures
            final(self).wf(),
            final(self).cell(p) == old(self).cell(p).push(entry),
            forall|q: Cell| q != p ==> #[trigger] final(self).cell(q) == old(self).cell(q),
            old(self).each_once() && !old(self).holds(entry.0) ==> final(self).each_once(),
    {
        let k = index_of(p);
        self.map[k].push(entry);
        proof {
            assert forall|q: Cell| q != p implies #[trigger] final(self).cell(q) == old(self).cell(
                q,
            ) by {
                if on_map(q) {
                    assert(cell_index(q) != cell_index(p));
                }
            }
            if old(self).each_once() && !old(self).holds(entry.0) {
                lemma_push_keeps_once(old(self), self, entry, p);
            }
        }
    }

    /// Sets the blocking flag of the first entry of `entity` in the cell.
    pub fn set_blocking(&mut self, entity: &Entity, p: Cell, blocking: bool)
        requires
            old(self).wf(),
            on_map(p),
        ensures
            final(self).wf(),
            final(self).cell(p) == with_blocking(old(self).cell(p), *entity, blocking),
            forall|q: Cell| q != p ==> #[trigger] final(self).cell(q) == old(self).cell(q),
            old(self).each_once() ==> final(self).each_once(),
    {
        let k = index_of(p);
        let found = find_entry(&self.map[k], entity);
        if let Some(i) = found {
            proof {
                lemma_position_of(self.cell(p), *entity);
            }
            let e = self.map[k][i];
            self.map[k][i] = Entry(e.0, blocking, e.2);
        }
        proof {
            assert forall|q: Cell| q != p implies #[trigger] final(self).cell(q) == old(self).cell(
                q,
            ) by {
                if on_map(q) {
                    assert(cell_index(q) != cell_index(p));
                }
            }
            if old(self).each_once() {
                lemma_position_of(old(self).cell(p), *entity);
                lemma_flags_keep_once(old(self), self, p);
            }
        }
    }

    /// Sets the sight-blocking flag of the first entry of `entity` in the
    /// cell.
    pub fn set_sight_blocking(&mut self, entity: &Entity, p: Cell, blocking: bool)
        requires
            old(self).wf(),
            on_map(p),
        ensures
            final(self).wf(),
            final(self).cell(p) == with_sight_blocking(old(self).cell(p), *entity, blocking),
            forall|q: Cell| q != p ==> #[trigger] final(self).cell(q) == old(self).cell(q),
            old(self).each_once() ==> final(self).each_once(),
    {
        let k = index_of(p);
        let found = find_entry(&self.map[k], entity);
        if let Some(i) = found {
            proof {
                lemma_position_of(self.cell(p), *entity);
            }
            let e = self.map[k][i];
            self.map[k][i] = Entry(e.0, e.1, blocking);
        }
        proof {
            assert forall|q: Cell| q != p implies #[trigger] final(self).cell(q) == old(self).cell(
                q,
            ) by {
                if on_map(q) {
                    assert(cell_index(q) != cell_index(p));
                }
            }
            if old(self).each_once() {
                lemma_position_of(old(self).cell(p), *entity);
                lemma_flags_keep_once(old(self), self, p);
            }
        }
    }

    /// Whether the cell has no occupant; true of every cell off the map.
    pub fn is_empty(&self, p: Cell) -> (b: bool)
        requires
            self.wf(),
        ensures
            b == (self.cell(p).len() == 0),
    {
        if is_on_map(p) {
            self.map[index_of(p)].len() == 0
        } else {
            true
        }
    }

    /// Adds `entity` to the cell, as an occupant that stops movement and
    /// lets sight pass.
    pub fn push(&mut self, entity: &Entity, p: Cell)
        requires
            old(self).wf(),
            on_map(p),
        ensures
            final(self).wf(),
            final(self).cell(p) == old(self).cell(p).push(Entry(*entity, true, false)),
            forall|q: Cell| q != p ==> #[trigger] final(self).cell(q) == old(self).cell(q),
            old(self).each_once() && !old(self).holds(*entity) ==> final(self).each_once(),
    {
        self.push_entry(Entry(*entity, true, false), p);
    }

    /// Takes the newest entry out of the cell and returns it.
    pub fn pop(&mut self, p: Cell) -> (r: Option<Entry>)
        requires
            old(self).wf(),
            on_map(p),
        ensures
            final(self).wf(),
            forall|q: Cell| q != p ==> #[trigger] final(self).cell(q) == old(self).cell(q),
            old(self).cell(p).len() == 0 ==> r.is_none() && final(self).cell(p) == old(self).cell(
                p,
            ),
            old(self).cell(p).len() > 0 ==> r == Some(old(self).cell(p).last())
                && final(self).cell(p) == old(self).cell(p).drop_last(),
            old(self).each_once() ==> final(self).each_once(),
            old(self).each_once() && r.is_some() ==> !final(self).holds(r.unwrap().0),
    {
        let k = index_of(p);
        let r = self.map[k].pop();
        proof {
            assert forall|q: Cell| q != p implies #[trigger] final(self).cell(q) == old(self).cell(
                q,
            ) by {
                if on_map(q) {
                    assert(cell_index(q) != cell_index(p));
                }
            }
            if old(self).each_once() {
                let entries = old(self).cell(p);
                if entries.len() > 0 {
                    assert(without(entries, entries.len() - 1) =~= entries.drop_last());
                    lemma_remove_keeps_once(old(self), self, p, entries.len() - 1);
                } else {
                    lemma_flags_keep_once(old(self), self, p);
                }
            }
        }
        r
    }

    /// The entries of a cell of the map, oldest first.
    pub fn get(&self, p: Cell) -> (entries: &Vec<Entry>)
        requires
            self.wf(),
            on_map(p),
        ensures
            entries@ == self.cell(p),
    {
        &self.map[index_of(p)]
    }
}

/// Adding an entry for an entity that has none keeps every entity at one
/// place.
pub proof fn lemma_push_keeps_once(before: &EntityMap, after: &EntityMap, entry: Entry, p: Cell)
    requires
        before.each_once(),
        !before.holds(entry.0),
        on_map(p),
        after.cell(p) == before.cell(p).push(entry),
        forall|q: Cell| q != p ==> #[trigger] after.cell(q) == before.cell(q),
    ensures
        after.each_once(),
        after.holds_at(entry.0, p),
{
    let last = before.cell(p).len() as int;
    assert(after.cell(p)[last] == entry);
    assert forall|a: Cell, b: Cell, i: int, j: int|
        0 <= i < after.cell(a).len() && 0 <= j < after.cell(b).len() && (#[trigger] after.cell(
            a,
        )[i]).0 == (#[trigger] after.cell(b)[j]).0 implies a == b && i == j by {
        let new_a = a == p && i == last;
        let new_b = b == p && j == last;
        if !new_a {
            assert(after.cell(a)[i] == before.cell(a)[i]);
        }
        if !new_b {
            assert(after.cell(b)[j] == before.cell(b)[j]);
        }
        if new_a && !new_b {
            assert(before.holds_at(entry.0, b));
        }
        if new_b && !new_a {
            assert(before.holds_at(entry.0, a));
        }
    }
}

/// Taking an entry out keeps every entity at one place, and leaves the
/// entity taken out without a place.
pub proof fn lemma_remove_keeps_once(before: &EntityMap, after: &EntityMap, p: Cell, i: int)
    requires
        before.each_once(),
        on_map(p),
        0 <= i < before.cell(p).len(),
        after.cell(p) == without(before.cell(p), i),
        forall|q: Cell| q != p ==> #[trigger] after.cell(q) == before.cell(q),
    ensures
        after.each_once(),
        !after.holds(before.cell(p)[i].0),
{
    let old_p = before.cell(p);
    let last = old_p.len() - 1;
    let gone = old_p[i].0;
    // Where an entry of `after` stood in `before`.
    let origin = |a: Cell, k: int| if a == p && k == i { last } else { k };
    assert forall|a: Cell, k: int| 0 <= k < after.cell(a).len() implies 0 <= origin(a, k)
        < before.cell(a).len() && (#[trigger] after.cell(a)[k]) == before.cell(a)[origin(a, k)]
        && !(a == p && origin(a, k) == i) by {}
    assert forall|a: Cell, b: Cell, k: int, j: int|
        0 <= k < after.cell(a).len() && 0 <= j < after.cell(b).len() && (#[trigger] after.cell(
            a,
        )[k]).0 == (#[trigger] after.cell(b)[j]).0 implies a == b && k == j by {
        let ok = origin(a, k);
        let oj = origin(b, j);
        assert(before.cell(a)[ok].0 == before.cell(b)[oj].0);
    }
    if after.holds(gone) {
        let a = choose|a: Cell| #[trigger] after.holds_at(gone, a);
        let k = choose|k: int| 0 <= k < after.cell(a).len() && (#[trigger] after.cell(a)[k]).0
            == gone;
        let ok = origin(a, k);
        assert(before.cell(a)[ok].0 == before.cell(p)[i].0);
    }
}

/// Changing the flags of an entry keeps every entity at one place.
pub proof fn lemma_flags_keep_once(before: &EntityMap, after: &EntityMap, p: Cell)
    requires
        before.each_once(),
        after.cell(p).len() == before.cell(p).len(),
        forall|i: int|
            0 <= i < before.cell(p).len() ==> (#[trigger] after.cell(p)[i]).0 == before.cell(
                p,
            )[i].0,
        forall|q: Cell| q != p ==> #[trigger] after.cell(q) == before.cell(q),
    ensures
        after.each_once(),
        forall|e: Entity| after.holds(e) == before.holds(e),
{
    assert forall|a: Cell, k: int| 0 <= k < after.cell(a).len() implies (#[trigger] after.cell(
        a,
    )[k]).0 == before.cell(a)[k].0 by {}
    assert forall|a: Cell, b: Cell, k: int, j: int|
        0 <= k < after.cell(a).len() && 0 <= j < after.cell(b).len() && (#[trigger] after.cell(
            a,
        )[k]).0 == (#[trigger] after.cell(b)[j]).0 implies a == b && k == j by {
        assert(before.cell(a)[k].0 == before.cell(b)[j].0);
    }
    assert forall|e: Entity| after.holds(e) == before.holds(e) by {
        if after.holds(e) {
            let a = choose|a: Cell| #[trigger] after.holds_at(e, a);
            let k = choose|k: int| 0 <= k < after.cell(a).len() && (#[trigger] after.cell(a)[k]).0
                == e;
            assert(before.cell(a)[k].0 == e);
            assert(before.holds_at(e, a));
        }
        if before.holds(e) {
            let a = choose|a: Cell| #[trigger] before.holds_at(e, a);
            let k = choose|k: int| 0 <= k < before.cell(a).len() && (#[trigger] before.cell(
                a,
            )[k]).0 == e;
            assert(after.cell(a)[k].0 == e);
            assert(after.holds_at(e, a));
        }
    }
}

/// After an entry was added, an entity has a place only if it had one
/// before or the entry is its own.
pub proof fn lemma_push_holds(
    before: &EntityMap,
    after: &EntityMap,
    entry: Entry,
    p: Cell,
    entity: Entity,
)
    requires
        after.cell(p) == before.cell(p).push(entry),
        forall|q: Cell| q != p ==> #[trigger] after.cell(q) == before.cell(q),
        after.holds(entity),
    ensures
        before.holds(entity) || entity == entry.0,
{
    let q = choose|q: Cell| #[trigger] after.holds_at(entity, q);
    let i = choose|i: int| 0 <= i < after.cell(q).len() && (#[trigger] after.cell(q)[i]).0
        == entity;
    if q == p && i == before.cell(p).len() {
        assert(after.cell(p)[i] == entry);
    } else {
        assert(before.cell(q)[i] == after.cell(q)[i]);
        assert(before.holds_at(entity, q));
    }
}

/// An index without occupants gives no entity a place.
pub proof fn lemma_empty_holds_nothing(index: &EntityMap, entity: Entity)
    requires
        forall|p: Cell| #[trigger] index.cell(p) == Seq::<Entry>::empty(),
    ensures
        !index.holds(entity),
        index.each_once(),
{
    if index.holds(entity) {
        let q = choose|q: Cell| #[trigger] index.holds_at(entity, q);
        assert(index.cell(q).len() == 0);
    }
}

} // verus!
