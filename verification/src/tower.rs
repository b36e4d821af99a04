//! The tower: its levels, each with its own terrain and occupants, and the
//! cells that the interface highlights.

use vstd::prelude::*;
use crate::appearance::Color;
use crate::entity_map::{lemma_empty_holds_nothing, lemma_push_holds, Entity, Entry};
use crate::geometry::{fits, Cell};
use crate::maps::{MapKind, Maps};
use crate::space::{is_on_map, on_map, Viewport, Visibility};
use crate::tile_map::{glyphs_of, layout_tile, Glyph, Tile};

verus! {

/// The name of a level.
#[derive(Copy, Clone, Debug, PartialEq, Eq, Hash, Structural)]
pub enum Level {
    Tower(i32),
}

/// A level of the tower.
pub struct Floor {
    pub level: Level,
    pub maps: Maps,
}

/// What kind of thing is put on a level at the start of a game.
#[derive(Copy, Clone, Debug, PartialEq, Eq, Structural)]
pub enum SpawnKind {
    /// A fixture, which stops movement and sight or not.
    Fixture { blocking: bool, sight_blocking: bool },
    Player,
    Npc,
    Item,
}

/// Where an entity starts a game.
#[derive(Copy, Clone, Debug, PartialEq, Eq)]
pub struct Placement {
    pub entity: Entity,
    pub level: Level,
    pub cell: Cell,
    pub kind: SpawnKind,
}

/// The order in which the kinds are put on a level: fixtures, players,
/// other characters, items.
pub open spec fn rank(kind: SpawnKind) -> int {
    match kind {
        SpawnKind::Fixture { .. } => 0,
        SpawnKind::Player => 1,
        SpawnKind::Npc => 2,
        SpawnKind::Item => 3,
    }
}

/// The entry with which a placement is put into an index: a fixture with
/// its own flags, everything else as an occupant that stops movement and
/// lets sight pass.
pub open spec fn entry_of(placement: Placement) -> Entry {
    match placement.kind {
        SpawnKind::Fixture { blocking, sight_blocking } => Entry(
            placement.entity,
            blocking,
            sight_blocking,
        ),
        _ => Entry(placement.entity, true, false),
    }
}

/// The entries that the placements of one rank leave in a cell of a level,
/// in the order of the roster.
pub open spec fn placed(roster: Seq<Placement>, level: Level, p: Cell, pass: int) -> Seq<Entry>
    decreases roster.len(),
{
    if roster.len() == 0 {
        Seq::empty()
    } else {
        let front = placed(roster.drop_last(), level, p, pass);
        let last = roster.last();
        if last.level == level && last.cell == p && on_map(p) && rank(last.kind) == pass {
            front.push(entry_of(last))
        } else {
            front
        }
    }
}

/// Whether no entity comes twice in the roster.
pub open spec fn distinct_entities(roster: Seq<Placement>) -> bool {
    forall|i: int, j: int|
        0 <= i < roster.len() && 0 <= j < roster.len() && (#[trigger] roster[i]).entity == (
        #[trigger] roster[j]).entity ==> i == j
}

/// The index that the placements of a rank go into: items into the index
/// of items, everything else into that of characters.
pub open spec fn index_of_rank(pass: int) -> MapKind {
    if pass == 3 {
        MapKind::Item
    } else {
        MapKind::Character
    }
}

/// Whether `entity` is the entity of a placement that goes into the index
/// `kind` and comes before the `k`-th placement of the rank `pass`: its
/// rank is lower, or it has that rank and comes earlier in the roster.
pub open spec fn came_before(
    roster: Seq<Placement>,
    entity: Entity,
    kind: MapKind,
    pass: int,
    k: int,
) -> bool {
    exists|j: int|
        0 <= j < roster.len() && (#[trigger] roster[j]).entity == entity && index_of_rank(
            rank(roster[j].kind),
        ) == kind && (rank(roster[j].kind) < pass || (rank(roster[j].kind) == pass && j < k))
}

/// What is drawn of a level: its tiles, and the cells to highlight at their
/// screen positions.
pub struct TowerView {
    pub glyphs: Vec<Glyph>,
    pub highlights: Vec<Cell>,
    pub highlight_color: Color,
}

/// The screen positions of those of `cells` that are in the viewport and
/// have a screen position that can be represented.
pub open spec fn shown(viewport: &Viewport, cells: Seq<Cell>) -> Seq<Cell>
    decreases cells.len(),
{
    if cells.len() == 0 {
        Seq::empty()
    } else {
        let front = shown(viewport, cells.drop_last());
        let c = cells.last();
        if viewport.r.holds(c) && fits(c.0 - viewport.r.x1) && fits(c.1 - viewport.r.y1) {
            front.push(((c.0 - viewport.r.x1) as i32, (c.1 - viewport.r.y1) as i32))
        } else {
            front
        }
    }
}

/// The tower.
pub struct Tower {
    pub floors: Vec<Floor>,
    pub highlights: Vec<Cell>,
    pub highlight_color: Color,
}

impl Tower {
    /// The place of a level among the floors, if the tower has it.
    pub open spec fn place(&self, level: Level) -> Option<int> {
        if exists|i: int| 0 <= i < self.floors@.len() && self.floors@[i].level == level {
            Some(choose|i: int| 0 <= i < self.floors@.len() && self.floors@[i].level == level)
        } else {
            None
        }
    }

    /// Whether the tower has the level.
    pub open spec fn has(&self, level: Level) -> bool {
        self.place(level).is_some()
    }

    /// The level of that name. Meaningful where the tower has it.
    pub open spec fn maps(&self, level: Level) -> Maps {
        self.floors@[self.place(level).unwrap()].maps
    }

    /// Every level is well formed and has a name of its own.
    pub open spec fn wf(&self) -> bool {
        &&& forall|i: int| 0 <= i < self.floors@.len() ==> (#[trigger] self.floors@[i]).maps.wf()
        &&& forall|i: int, j: int|
            0 <= i < self.floors@.len() && 0 <= j < self.floors@.len() && (
            #[trigger] self.floors@[i]).level == (#[trigger] self.floors@[j]).level ==> i == j
    }

    /// Finds the place of a level among the floors.
    fn find(&self, level: &Level) -> (r: Option<usize>)
        requires
            self.wf(),
        ensures
            match r {
                Some(i) => self.place(*level) == Some(i as int) && i < self.floors@.len()
                    && self.floors@[i as int].level == *level,
                None => self.place(*level).is_none(),
            },
    {
        let mut i: usize = 0;
        while i < self.floors.len()
            invariant
                self.wf(),
                i <= self.floors@.len(),
                forall|j: int| 0 <= j < i ==> (#[trigger] self.floors@[j]).level != *level,
            decreases self.floors@.len() - i,
        {
            if self.floors[i].level == *level {
                proof {
                    let j = choose|j: int|
                        0 <= j < self.floors@.len() && self.floors@[j].level == *level;
                    assert(self.floors@[j].level == self.floors@[i as int].level);
                }
                return Some(i);
            }
            i = i + 1;
        }
        None
    }

    /// A tower with the levels given, each of bedrock and without
    /// occupants. A name given twice counts once.
    pub fn new(levels: &Vec<Level>) -> (t: Tower)
        ensures
            t.wf(),
            forall|level: Level| t.has(level) == levels@.contains(level),
            forall|level: Level, p: Cell|
                t.has(level) ==> {
                    &&& #[trigger] t.maps(level).tiles.tile(p) == Tile::spec_bedrock()
                    &&& t.maps(level).characters.cell(p) == Seq::<Entry>::empty()
                    &&& t.maps(level).items.cell(p) == Seq::<Entry>::empty()
                },
            forall|level: Level| t.has(level) ==> (#[trigger] t.maps(level)).tiles.rooms == 0,
            t.highlights@ == Seq::<Cell>::empty(),
            t.highlight_color == Color::LightGreen,
    {
        let mut t = Tower { floors: Vec::new(), highlights: Vec::new(), highlight_color: Color::LightGreen };
        let mut k: usize = 0;
        while k < levels.len()
            invariant
                k <= levels@.len(),
                t.wf(),
                t.highlights@ == Seq::<Cell>::empty(),
                t.highlight_color == Color::LightGreen,
                forall|level: Level| t.has(level) == levels@.take(k as int).contains(level),
                forall|i: int, p: Cell|
                    0 <= i < t.floors@.len() ==> {
                        &&& #[trigger] t.floors@[i].maps.tiles.tile(p) == Tile::spec_bedrock()
                        &&& t.floors@[i].maps.characters.cell(p) == Seq::<Entry>::empty()
                        &&& t.floors@[i].maps.items.cell(p) == Seq::<Entry>::empty()
                    },
                forall|i: int| 0 <= i < t.floors@.len() ==> (#[trigger] t.floors@[i]).maps.tiles.rooms == 0,
            decreases levels@.len() - k,
        {
            let level = levels[k];
            let ghost before = t;
            let found = t.find(&level);
            if found.is_none() {
                t.floors.push(Floor { level, maps: Maps::new() });
                assert(t.floors@[t.floors@.len() - 1].level == level);
            }
            proof {
                let prefix = levels@.take(k as int);
                let next = levels@.take(k as int + 1);
                assert(next == prefix.push(level));
                assert forall|l: Level| t.has(l) == next.contains(l) by {
                    crate::tower::lemma_push_has(prefix, level, l);
                    if before.has(l) {
                        let i = before.place(l).unwrap();
                        assert(t.floors@[i].level == l);
                    }
                    if t.has(l) && l != level {
                        let i = t.place(l).unwrap();
                        assert(before.floors@[i].level == l);
                    }
                }
            }
            k = k + 1;
        }
        assert(levels@.take(k as int) == levels@);
        t
    }

    /// The level of that name, if the tower has it.
    pub fn get(&self, level: &Level) -> (r: Option<&Maps>)
        requires
            self.wf(),
        ensures
            match r {
                Some(m) => self.has(*level) && *m == self.maps(*level) && m.wf(),
                None => !self.has(*level),
            },
    {
        match self.find(level) {
            Some(i) => Some(&self.floors[i].maps),
            None => None,
        }
    }

    /// The level of that name, to be changed, if the tower has it.
    pub fn get_mut(&mut self, level: &Level) -> (r: Option<&mut Maps>)
        requires
            old(self).wf(),
        ensures
            final(self).highlights == old(self).highlights,
            final(self).highlight_color == old(self).highlight_color,
            final(self).floors@.len() == old(self).floors@.len(),
            match r {
                Some(m) => {
                    let i = old(self).place(*level).unwrap();
                    &&& old(self).has(*level)
                    &&& *m == old(self).maps(*level)
                    &&& m.wf()
                    &&& final(self).floors@ == old(self).floors@.update(
                        i,
                        Floor { level: *level, maps: *final(m) },
                    )
                },
                None => !old(self).has(*level) && final(self).floors@ == old(self).floors@,
            },
    {
        match self.find(level) {
            Some(i) => Some(&mut self.floors[i].maps),
            None => None,
        }
    }

    /// Puts the placements of one rank on their levels, in the order of the
    /// roster. A placement on a level that the tower does not have, or in a
    /// cell off the map, is left out.
    fn place_pass(&mut self, roster: &Vec<Placement>, pass: u8)
        requires
            old(self).wf(),
            pass <= 3,
            distinct_entities(roster@) ==> forall|i: int|
                0 <= i < old(self).floors@.len() ==> {
                    &&& (#[trigger] old(self).floors@[i]).maps.index(
                        Self::index_of_pass(pass),
                    ).each_once()
                    &&& forall|e: Entity|
                        old(self).floors@[i].maps.index(Self::index_of_pass(pass)).holds(e)
                            ==> came_before(roster@, e, Self::index_of_pass(pass), pass as int, 0)
                },
        ensures
            final(self).wf(),
            distinct_entities(roster@) ==> forall|i: int|
                0 <= i < final(self).floors@.len() ==> {
                    &&& (#[trigger] final(self).floors@[i]).maps.index(
                        Self::index_of_pass(pass),
                    ).each_once()
                    &&& forall|e: Entity|
                        final(self).floors@[i].maps.index(Self::index_of_pass(pass)).holds(e)
                            ==> came_before(
                            roster@,
                            e,
                            Self::index_of_pass(pass),
                            pass as int,
                            roster@.len() as int,
                        )
                },
            final(self).highlights == old(self).highlights,
            final(self).highlight_color == old(self).highlight_color,
            final(self).floors@.len() == old(self).floors@.len(),
            forall|i: int|
                0 <= i < old(self).floors@.len() ==> {
                    &&& (#[trigger] final(self).floors@[i]).level == old(self).floors@[i].level
                    &&& final(self).floors@[i].maps.tiles == old(self).floors@[i].maps.tiles
                    &&& pass == 3 ==> final(self).floors@[i].maps.characters == old(self).floors@[i].maps.characters
                    &&& pass != 3 ==> final(self).floors@[i].maps.items == old(self).floors@[i].maps.items
                },
            forall|i: int, p: Cell|
                0 <= i < old(self).floors@.len() ==> #[trigger] final(self).floors@[i].maps.index(
                    Self::index_of_pass(pass),
                ).cell(p) == old(self).floors@[i].maps.index(Self::index_of_pass(pass)).cell(p)
                    + placed(roster@, old(self).floors@[i].level, p, pass as int),
    {
        let ghost kind = Self::index_of_pass(pass);
        let mut k: usize = 0;
        proof {
            assert(roster@.take(0) == Seq::<Placement>::empty());
            assert forall|i: int, p: Cell| 0 <= i < self.floors@.len() implies #[trigger]
                self.floors@[i].maps.index(kind).cell(p) == old(self).floors@[i].maps.index(
                kind,
            ).cell(p) + placed(roster@.take(0), old(self).floors@[i].level, p, pass as int) by {
                assert(self.floors@[i].maps.index(kind).cell(p) + Seq::<Entry>::empty()
                    == self.floors@[i].maps.index(kind).cell(p));
            }
        }
        while k < roster.len()
            invariant
                k <= roster@.len(),
                pass <= 3,
                kind == Self::index_of_pass(pass),
                kind == index_of_rank(pass as int),
                self.wf(),
                distinct_entities(roster@) ==> forall|i: int|
                    0 <= i < self.floors@.len() ==> {
                        &&& (#[trigger] self.floors@[i]).maps.index(kind).each_once()
                        &&& forall|e: Entity|
                            self.floors@[i].maps.index(kind).holds(e) ==> came_before(
                                roster@,
                                e,
                                kind,
                                pass as int,
                                k as int,
                            )
                    },
                self.highlights == old(self).highlights,
                self.highlight_color == old(self).highlight_color,
                self.floors@.len() == old(self).floors@.len(),
                forall|i: int|
                    0 <= i < self.floors@.len() ==> {
                        &&& (#[trigger] self.floors@[i]).level == old(self).floors@[i].level
                        &&& self.floors@[i].maps.tiles == old(self).floors@[i].maps.tiles
                        &&& pass == 3 ==> self.floors@[i].maps.characters == old(self).floors@[i].maps.characters
                        &&& pass != 3 ==> self.floors@[i].maps.items == old(self).floors@[i].maps.items
                    },
                forall|i: int, p: Cell|
                    0 <= i < self.floors@.len() ==> #[trigger] self.floors@[i].maps.index(
                        kind,
                    ).cell(p) == old(self).floors@[i].maps.index(kind).cell(p) + placed(
                        roster@.take(k as int),
                        old(self).floors@[i].level,
                        p,
                        pass as int,
                    ),
            decreases roster@.len() - k,
        {
            let r = roster[k];
            let ghost before = *self;
            let ghost prefix = roster@.take(k as int);
            let ghost next = roster@.take(k as int + 1);
            proof {
                assert(next.drop_last() == prefix);
                assert(next.last() == r);
            }
            let mut target: Option<usize> = None;
            if rank_of(&r.kind) == pass && is_on_map(r.cell) {
                target = self.find(&r.level);
            }
            proof {
                if distinct_entities(roster@) && target.is_some() {
                    let i = target.unwrap() as int;
                    let index = self.floors@[i].maps.index(kind);
                    if index.holds(r.entity) {
                        assert(came_before(roster@, r.entity, kind, pass as int, k as int));
                        let j = choose|j: int|
                            0 <= j < roster@.len() && (#[trigger] roster@[j]).entity == r.entity
                                && index_of_rank(rank(roster@[j].kind)) == kind && (rank(
                                roster@[j].kind,
                            ) < pass || (rank(roster@[j].kind) == pass && j < k));
                        assert(roster@[j].entity == roster@[k as int].entity);
                    }
                }
            }
            if let Some(i) = target {
                match r.kind {
                    SpawnKind::Fixture { blocking, sight_blocking } => {
                        self.floors[i].maps.characters.push_entry(
                            Entry(r.entity, blocking, sight_blocking),
                            r.cell,
                        );
                    },
                    SpawnKind::Player => {
                        self.floors[i].maps.characters.push(&r.entity, r.cell);
                    },
                    SpawnKind::Npc => {
                        self.floors[i].maps.characters.push(&r.entity, r.cell);
                    },
                    SpawnKind::Item => {
                        self.floors[i].maps.items.push(&r.entity, r.cell);
                    },
                }
            }
            proof {
                if distinct_entities(roster@) {
                    assert forall|j: int| 0 <= j < self.floors@.len() implies {
                        &&& (#[trigger] self.floors@[j]).maps.index(kind).each_once()
                        &&& forall|e: Entity|
                            self.floors@[j].maps.index(kind).holds(e) ==> came_before(
                                roster@,
                                e,
                                kind,
                                pass as int,
                                k + 1,
                            )
                    } by {
                        let was = before.floors@[j].maps.index(kind);
                        let now = self.floors@[j].maps.index(kind);
                        assert(was.each_once());
                        assert forall|e: Entity| now.holds(e) implies came_before(
                            roster@,
                            e,
                            kind,
                            pass as int,
                            k + 1,
                        ) by {
                            if target.is_some() && target.unwrap() == j {
                                lemma_push_holds(was, now, entry_of(r), r.cell, e);
                            }
                            if was.holds(e) {
                                assert(came_before(roster@, e, kind, pass as int, k as int));
                                let w = choose|w: int|
                                    0 <= w < roster@.len() && (#[trigger] roster@[w]).entity == e
                                        && index_of_rank(rank(roster@[w].kind)) == kind && (rank(
                                        roster@[w].kind,
                                    ) < pass || (rank(roster@[w].kind) == pass && w < k));
                                assert(roster@[w].entity == e);
                            } else {
                                assert(roster@[k as int].entity == e);
                            }
                        }
                    }
                }
                assert forall|j: int, p: Cell| 0 <= j < self.floors@.len() implies #[trigger]
                    self.floors@[j].maps.index(kind).cell(p) == old(self).floors@[j].maps.index(
                    kind,
                ).cell(p) + placed(next, old(self).floors@[j].level, p, pass as int) by {
                    let base = old(self).floors@[j].maps.index(kind).cell(p);
                    let level = old(self).floors@[j].level;
                    let so_far = placed(prefix, level, p, pass as int);
                    assert(before.floors@[j].maps.index(kind).cell(p) == base + so_far);
                    let counts = r.level == level && r.cell == p && on_map(p) && rank(r.kind)
                        == pass;
                    if counts {
                        assert(before.floors@[j].level == r.level);
                        assert(target == Some(j as usize));
                        assert((base + so_far).push(entry_of(r)) == base + so_far.push(
                            entry_of(r),
                        ));
                    } else {
                        if target.is_some() && target.unwrap() == j {
                            assert(r.cell != p);
                        }
                    }
                }
            }
            k = k + 1;
        }
        assert(roster@.take(k as int) == roster@);
    }

    /// The index that the placements of a rank go into: items into the
    /// index of items, everything else into that of characters.
    pub open spec fn index_of_pass(pass: u8) -> MapKind {
        if pass == 3 {
            MapKind::Item
        } else {
            MapKind::Character
        }
    }

    /// Puts the tower back to the start of a game: every level loses its
    /// occupants, and the entities of the roster take their places, first
    /// the fixtures, then the players, then the other characters, and the
    /// items in the index of their own.
    pub fn reset(&mut self, roster: &Vec<Placement>)
        requires
            old(self).wf(),
        ensures
            final(self).wf(),
            final(self).highlights == old(self).highlights,
            final(self).highlight_color == old(self).highlight_color,
            final(self).floors@.len() == old(self).floors@.len(),
            forall|i: int|
                0 <= i < old(self).floors@.len() ==> {
                    &&& (#[trigger] final(self).floors@[i]).level == old(self).floors@[i].level
                    &&& final(self).floors@[i].maps.tiles == old(self).floors@[i].maps.tiles
                },
            forall|i: int, p: Cell|
                0 <= i < old(self).floors@.len() ==> {
                    let level = old(self).floors@[i].level;
                    &&& #[trigger] final(self).floors@[i].maps.characters.cell(p) == placed(
                        roster@,
                        level,
                        p,
                        0,
                    ) + placed(roster@, level, p, 1) + placed(roster@, level, p, 2)
                    &&& final(self).floors@[i].maps.items.cell(p) == placed(roster@, level, p, 3)
                },
            distinct_entities(roster@) ==> forall|i: int|
                0 <= i < old(self).floors@.len() ==> (#[trigger] final(self).floors@[i]).maps.characters.each_once() && final(self).floors@[i].maps.items.each_once(),
    {
        self.clear();
        let ghost cleared = *self;
        proof {
            assert forall|i: int| 0 <= i < self.floors@.len() implies {
                &&& (#[trigger] self.floors@[i]).maps.characters.each_once()
                &&& self.floors@[i].maps.items.each_once()
                &&& forall|e: Entity| !self.floors@[i].maps.characters.holds(e)
                &&& forall|e: Entity| !self.floors@[i].maps.items.holds(e)
            } by {
                assert forall|e: Entity| !self.floors@[i].maps.characters.holds(e) by {
                    lemma_empty_holds_nothing(&self.floors@[i].maps.characters, e);
                }
                assert forall|p: Cell| #[trigger]
                    self.floors@[i].maps.items.cell(p) == Seq::<Entry>::empty() by {
                    assert(self.floors@[i].maps.characters.cell(p) == Seq::<Entry>::empty());
                }
                assert forall|e: Entity| !self.floors@[i].maps.items.holds(e) by {
                    lemma_empty_holds_nothing(&self.floors@[i].maps.items, e);
                }
                lemma_empty_holds_nothing(
                    &self.floors@[i].maps.characters,
                    Entity { index: 0, generation: 0 },
                );
                lemma_empty_holds_nothing(
                    &self.floors@[i].maps.items,
                    Entity { index: 0, generation: 0 },
                );
            }
        }
        self.place_pass(roster, 0);
        let ghost fixtures = *self;
        proof {
            lemma_came_before_next(roster@, MapKind::Character, 0);
            if distinct_entities(roster@) {
                assert forall|i: int| 0 <= i < self.floors@.len() implies {
                    &&& (#[trigger] self.floors@[i]).maps.index(MapKind::Character).each_once()
                    &&& forall|e: Entity|
                        self.floors@[i].maps.index(MapKind::Character).holds(e) ==> came_before(
                            roster@,
                            e,
                            MapKind::Character,
                            1,
                            0,
                        )
                } by {
                    assert forall|e: Entity|
                        self.floors@[i].maps.index(MapKind::Character).holds(e) implies came_before(
                        roster@,
                        e,
                        MapKind::Character,
                        1,
                        0,
                    ) by {
                        assert(came_before(
                            roster@,
                            e,
                            MapKind::Character,
                            0,
                            roster@.len() as int,
                        ));
                    }
                }
            }
        }
        self.place_pass(roster, 1);
        let ghost players = *self;
        proof {
            lemma_came_before_next(roster@, MapKind::Character, 1);
            if distinct_entities(roster@) {
                assert forall|i: int| 0 <= i < self.floors@.len() implies {
                    &&& (#[trigger] self.floors@[i]).maps.index(MapKind::Character).each_once()
                    &&& forall|e: Entity|
                        self.floors@[i].maps.index(MapKind::Character).holds(e) ==> came_before(
                            roster@,
                            e,
                            MapKind::Character,
                            2,
                            0,
                        )
                } by {
                    assert forall|e: Entity|
                        self.floors@[i].maps.index(MapKind::Character).holds(e) implies came_before(
                        roster@,
                        e,
                        MapKind::Character,
                        2,
                        0,
                    ) by {
                        assert(came_before(
                            roster@,
                            e,
                            MapKind::Character,
                            1,
                            roster@.len() as int,
                        ));
                    }
                }
            }
        }
        self.place_pass(roster, 2);
        let ghost characters = *self;
        proof {
            assert forall|i: int| 0 <= i < self.floors@.len() implies {
                &&& (#[trigger] self.floors@[i]).maps.items.each_once()
                &&& forall|e: Entity| !self.floors@[i].maps.items.holds(e)
            } by {
                assert(self.floors@[i].maps.items == cleared.floors@[i].maps.items);
                assert(forall|e: Entity| !cleared.floors@[i].maps.items.holds(e));
            }
        }
        self.place_pass(roster, 3);
        proof {
            assert forall|i: int| 0 <= i < self.floors@.len() implies (#[trigger] self.floors@[i]).maps.characters
                == characters.floors@[i].maps.characters by {}
        }
        proof {
            assert forall|i: int, p: Cell| 0 <= i < old(self).floors@.len() implies {
                let level = old(self).floors@[i].level;
                &&& #[trigger] self.floors@[i].maps.characters.cell(p) == placed(
                    roster@,
                    level,
                    p,
                    0,
                ) + placed(roster@, level, p, 1) + placed(roster@, level, p, 2)
                &&& self.floors@[i].maps.items.cell(p) == placed(roster@, level, p, 3)
            } by {
                let level = old(self).floors@[i].level;
                let empty = Seq::<Entry>::empty();
                assert(cleared.floors@[i].maps.characters.cell(p) == empty);
                assert(cleared.floors@[i].maps.items.cell(p) == empty);
                assert(fixtures.floors@[i].maps.index(MapKind::Character).cell(p) == empty + placed(
                    roster@,
                    level,
                    p,
                    0,
                ));
                assert(empty + placed(roster@, level, p, 0) == placed(roster@, level, p, 0));
                assert(players.floors@[i].maps.index(MapKind::Character).cell(p) == placed(
                    roster@,
                    level,
                    p,
                    0,
                ) + placed(roster@, level, p, 1));
                assert(characters.floors@[i].maps.index(MapKind::Character).cell(p) == placed(
                    roster@,
                    level,
                    p,
                    0,
                ) + placed(roster@, level, p, 1) + placed(roster@, level, p, 2));
                assert(self.floors@[i].maps.characters == characters.floors@[i].maps.characters);
                assert(characters.floors@[i].maps.items == cleared.floors@[i].maps.items);
                assert(self.floors@[i].maps.index(MapKind::Item).cell(p) == empty + placed(
                    roster@,
                    level,
                    p,
                    3,
                ));
                assert(empty + placed(roster@, level, p, 3) == placed(roster@, level, p, 3));
            }
        }
    }

    /// Builds the terrain of the first level, where the tower has one.
    pub fn build(&mut self)
        requires
            old(self).wf(),
            old(self).has(Level::Tower(0)) ==> old(self).maps(Level::Tower(0)).tiles.rooms
                <= i32::MAX - 5,
        ensures
            final(self).wf(),
            final(self).highlights == old(self).highlights,
            final(self).highlight_color == old(self).highlight_color,
            final(self).floors@.len() == old(self).floors@.len(),
            forall|i: int|
                0 <= i < old(self).floors@.len() ==> (#[trigger] final(self).floors@[i]).level
                    == old(self).floors@[i].level,
            forall|i: int|
                0 <= i < old(self).floors@.len() && old(self).floors@[i].level != Level::Tower(0)
                    ==> #[trigger] final(self).floors@[i] == old(self).floors@[i],
            old(self).has(Level::Tower(0)) ==> {
                let before = old(self).maps(Level::Tower(0));
                let after = final(self).maps(Level::Tower(0));
                &&& final(self).has(Level::Tower(0))
                &&& after.characters == before.characters
                &&& after.items == before.items
                &&& after.tiles.rooms == before.tiles.rooms + 5
                &&& forall|p: Cell|
                    #[trigger] after.tiles.tile(p) == layout_tile(
                        before.tiles.tile(p),
                        p,
                        before.tiles.rooms,
                    )
            },
    {
        let level = Level::Tower(0);
        if let Some(i) = self.find(&level) {
            self.floors[i].maps.build();
            assert(self.floors@[i as int].level == level);
            assert(final(self).place(level) == Some(i as int));
        }
    }

    /// Removes every character and every item from every level.
    pub fn clear(&mut self)
        requires
            old(self).wf(),
        ensures
            final(self).wf(),
            final(self).highlights == old(self).highlights,
            final(self).highlight_color == old(self).highlight_color,
            final(self).floors@.len() == old(self).floors@.len(),
            forall|i: int|
                0 <= i < old(self).floors@.len() ==> {
                    &&& (#[trigger] final(self).floors@[i]).level == old(self).floors@[i].level
                    &&& final(self).floors@[i].maps.tiles == old(self).floors@[i].maps.tiles
                },
            forall|i: int, p: Cell|
                0 <= i < old(self).floors@.len() ==> {
                    &&& #[trigger] final(self).floors@[i].maps.characters.cell(p) == Seq::<
                        Entry,
                    >::empty()
                    &&& final(self).floors@[i].maps.items.cell(p) == Seq::<Entry>::empty()
                },
    {
        let mut k: usize = 0;
        while k < self.floors.len()
            invariant
                k <= self.floors@.len(),
                self.floors@.len() == old(self).floors@.len(),
                self.highlights == old(self).highlights,
                self.highlight_color == old(self).highlight_color,
                forall|i: int| 0 <= i < self.floors@.len() ==> (#[trigger] self.floors@[i]).maps.wf(),
                forall|i: int|
                    0 <= i < self.floors@.len() ==> {
                        &&& (#[trigger] self.floors@[i]).level == old(self).floors@[i].level
                        &&& self.floors@[i].maps.tiles == old(self).floors@[i].maps.tiles
                    },
                forall|i: int, p: Cell|
                    0 <= i < k ==> {
                        &&& #[trigger] self.floors@[i].maps.characters.cell(p) == Seq::<
                            Entry,
                        >::empty()
                        &&& self.floors@[i].maps.items.cell(p) == Seq::<Entry>::empty()
                    },
            decreases self.floors@.len() - k,
        {
            self.floors[k].maps.clear_all();
            k = k + 1;
        }
    }

    /// Marks every cell that is in sight as discovered, on every level.
    pub fn update(&mut self, fov: &Visibility)
        requires
            old(self).wf(),
            fov.wf(),
        ensures
            final(self).wf(),
            final(self).highlights == old(self).highlights,
            final(self).highlight_color == old(self).highlight_color,
            final(self).floors@.len() == old(self).floors@.len(),
            forall|i: int|
                0 <= i < old(self).floors@.len() ==> {
                    &&& (#[trigger] final(self).floors@[i]).level == old(self).floors@[i].level
                    &&& final(self).floors@[i].maps.characters == old(self).floors@[i].maps.characters
                    &&& final(self).floors@[i].maps.items == old(self).floors@[i].maps.items
                    &&& final(self).floors@[i].maps.tiles.rooms == old(self).floors@[i].maps.tiles.rooms
                },
            forall|i: int, p: Cell|
                0 <= i < old(self).floors@.len() ==> #[trigger] final(self).floors@[i].maps.tiles.tile(p) == old(self).floors@[i].maps.tiles.tile(p).seen(
                    fov.sees(p),
                ),
    {
        let mut k: usize = 0;
        while k < self.floors.len()
            invariant
                k <= self.floors@.len(),
                fov.wf(),
                self.floors@.len() == old(self).floors@.len(),
                self.highlights == old(self).highlights,
                self.highlight_color == old(self).highlight_color,
                forall|i: int| 0 <= i < self.floors@.len() ==> (#[trigger] self.floors@[i]).maps.wf(),
                forall|i: int|
                    0 <= i < self.floors@.len() ==> {
                        &&& (#[trigger] self.floors@[i]).level == old(self).floors@[i].level
                        &&& self.floors@[i].maps.characters == old(self).floors@[i].maps.characters
                        &&& self.floors@[i].maps.items == old(self).floors@[i].maps.items
                        &&& self.floors@[i].maps.tiles.rooms == old(self).floors@[i].maps.tiles.rooms
                    },
                forall|i: int| k <= i < self.floors@.len() ==> #[trigger] self.floors@[i] == old(self).floors@[i],
                forall|i: int, p: Cell|
                    0 <= i < k ==> #[trigger] self.floors@[i].maps.tiles.tile(p) == old(self).floors@[i].maps.tiles.tile(p).seen(fov.sees(p)),
            decreases self.floors@.len() - k,
        {
            self.floors[k].maps.update(fov);
            k = k + 1;
        }
    }

    /// What is drawn of a level: its discovered tiles in the viewport, and
    /// the highlighted cells in the viewport. Of a level that the tower
    /// does not have, no tile is drawn.
    pub fn draw(&self, level: &Level, fov: &Visibility, viewport: &Viewport) -> (view: TowerView)
        requires
            self.wf(),
            fov.wf(),
        ensures
            view.highlight_color == self.highlight_color,
            view.highlights@ == shown(viewport, self.highlights@),
            view.glyphs@ == if self.has(*level) {
                glyphs_of(&self.maps(*level).tiles, fov, viewport, viewport.r.cell_seq())
            } else {
                Seq::empty()
            },
    {
        let glyphs = match self.get(level) {
            Some(map) => map.draw(fov, viewport),
            None => Vec::new(),
        };
        let mut highlights: Vec<Cell> = Vec::new();
        let mut k: usize = 0;
        while k < self.highlights.len()
            invariant
                k <= self.highlights@.len(),
                highlights@ == shown(viewport, self.highlights@.take(k as int)),
            decreases self.highlights@.len() - k,
        {
            let pixel = self.highlights[k];
            proof {
                let next = self.highlights@.take(k as int + 1);
                assert(next.drop_last() == self.highlights@.take(k as int));
                assert(next.last() == pixel);
            }
            if viewport.visible(pixel) {
                let x: i64 = pixel.0 as i64 - viewport.r.x1 as i64;
                let y: i64 = pixel.1 as i64 - viewport.r.y1 as i64;
                if x <= i32::MAX as i64 && y <= i32::MAX as i64 {
                    highlights.push(viewport.transform(pixel));
                }
            }
            k = k + 1;
        }
        assert(self.highlights@.take(k as int) == self.highlights@);
        TowerView { glyphs, highlights, highlight_color: self.highlight_color }
    }

    /// Removes every highlight.
    pub fn clear_highlights(&mut self)
        ensures
            final(self).highlights@ == Seq::<Cell>::empty(),
            final(self).floors == old(self).floors,
            final(self).highlight_color == old(self).highlight_color,
    {
        self.highlights = Vec::new();
    }

    /// Sets the colour of the highlights.
    pub fn set_highlight_color(&mut self, color: Color)
        ensures
            final(self).highlight_color == color,
            final(self).floors == old(self).floors,
            final(self).highlights == old(self).highlights,
    {
        self.highlight_color = color;
    }

    /// Adds the cells given to the highlights.
    pub fn add_highlights(&mut self, cells: &Vec<Cell>)
        ensures
            final(self).highlights@ == old(self).highlights@ + cells@,
            final(self).floors == old(self).floors,
            final(self).highlight_color == old(self).highlight_color,
    {
        let mut k: usize = 0;
        assert(cells@.take(0) == Seq::<Cell>::empty());
        assert(self.highlights@ + Seq::<Cell>::empty() == self.highlights@);
        while k < cells.len()
            invariant
                k <= cells@.len(),
                self.floors == old(self).floors,
                self.highlight_color == old(self).highlight_color,
                self.highlights@ == old(self).highlights@ + cells@.take(k as int),
            decreases cells@.len() - k,
        {
            self.highlights.push(cells[k]);
            assert(cells@.take(k as int + 1) == cells@.take(k as int).push(cells@[k as int]));
            k = k + 1;
        }
        assert(cells@.take(k as int) == cells@);
    }
}

/// What came before the end of one rank came before the start of the next.
pub proof fn lemma_came_before_next(roster: Seq<Placement>, kind: MapKind, pass: int)
    ensures
        forall|e: Entity|
            came_before(roster, e, kind, pass, roster.len() as int) ==> #[trigger] came_before(
                roster,
                e,
                kind,
                pass + 1,
                0,
            ),
{
    assert forall|e: Entity|
        came_before(roster, e, kind, pass, roster.len() as int) implies #[trigger] came_before(
        roster,
        e,
        kind,
        pass + 1,
        0,
    ) by {
        let j = choose|j: int|
            0 <= j < roster.len() && (#[trigger] roster[j]).entity == e && index_of_rank(
                rank(roster[j].kind),
            ) == kind && (rank(roster[j].kind) < pass || (rank(roster[j].kind) == pass && j
                < roster.len()));
        assert(roster[j].entity == e);
    }
}

/// The order in which a kind is put on a level.
pub fn rank_of(kind: &SpawnKind) -> (r: u8)
    ensures
        r == rank(*kind),
{
    match kind {
        SpawnKind::Fixture { .. } => 0,
        SpawnKind::Player => 1,
        SpawnKind::Npc => 2,
        SpawnKind::Item => 3,
    }
}

/// A sequence with one more element contains what it contained, and that
/// element.
pub proof fn lemma_push_has(s: Seq<Level>, level: Level, l: Level)
    ensures
        s.push(level).contains(l) <==> (s.contains(l) || l == level),
{
    let t = s.push(level);
    if t.contains(l) {
        let i = choose|i: int| 0 <= i < t.len() && t[i] == l;
        if i < s.len() {
            assert(s[i] == l);
        }
    }
    if s.contains(l) {
        let i = choose|i: int| 0 <= i < s.len() && s[i] == l;
        assert(t[i] == l);
    }
    if l == level {
        assert(t[s.len() as int] == l);
    }
}

} // verus!
