//! One level: its terrain, the characters on it and the items lying on it,
//! and the questions that need all three: where an entity may walk, where a
//! projectile flies, what stops sight.

use vstd::prelude::*;
use crate::entity_map::{
    lemma_position_of,
    lemma_push_keeps_once,
    lemma_remove_keeps_once,
    position_of,
    with_blocking,
    with_sight_blocking,
    without,
    Entity,
    EntityMap,
    Entry,
};
use crate::geometry::{shape_cells, Cell, Ray, Shape, ShapeIter};
use crate::pathfinder::{adjacent, find_route, is_route, joins, step_ok, Passability};
use crate::space::{is_on_map, on_map, Viewport, Visibility, MAP_HEIGHT, MAP_WIDTH, MAP_Y};
use crate::tile_map::{lemma_iter_step, Glyph, TileMap};

verus! {

/// Which of the two indices of a level is meant.
#[derive(Copy, Clone, Debug, PartialEq, Eq, Structural)]
pub enum MapKind {
    Item,
    Character,
}

/// Whether an entry of another entity stops movement.
pub open spec fn blocked_by_other(entries: Seq<Entry>, entity: Entity) -> bool {
    exists|i: int| 0 <= i < entries.len() && (#[trigger] entries[i]).0 != entity && entries[i].1
}

/// Whether an entry stops sight.
pub open spec fn any_sight_blocking(entries: Seq<Entry>) -> bool {
    exists|i: int| 0 <= i < entries.len() && (#[trigger] entries[i]).2
}

/// The entities of the entries, in the same order.
pub open spec fn entities_of(entries: Seq<Entry>) -> Seq<Entity> {
    Seq::new(entries.len(), |i: int| entries[i].0)
}

/// The entities in the cells given, cell after cell.
pub open spec fn occupants(index: &EntityMap, cells: Seq<Cell>) -> Seq<Entity>
    decreases cells.len(),
{
    if cells.len() == 0 {
        Seq::empty()
    } else {
        entities_of(index.cell(cells[0])) + occupants(index, cells.skip(1))
    }
}

/// Whether a cell is within `length` of `from`: the distance between the
/// two, rounded down, is at most `length`.
pub open spec fn within_reach(from: Cell, p: Cell, length: int) -> bool {
    let dx = p.0 - from.0;
    let dy = p.1 - from.1;
    length >= 0 && dx * dx + dy * dy < (length + 1) * (length + 1)
}

/// Tests whether a cell is within `length` of `from`.
pub fn is_within_reach(from: Cell, p: Cell, length: i32) -> (b: bool)
    ensures
        b == within_reach(from, p, length as int),
{
    if length < 0 {
        return false;
    }
    let dx: i128 = p.0 as i128 - from.0 as i128;
    let dy: i128 = p.1 as i128 - from.1 as i128;
    let reach: i128 = length as i128 + 1;
    assert(0 <= dx * dx <= 0x1_0000_0000_0000_0000) by (nonlinear_arith)
        requires
            -0x1_0000_0000 <= dx <= 0x1_0000_0000,
    ;
    assert(0 <= dy * dy <= 0x1_0000_0000_0000_0000) by (nonlinear_arith)
        requires
            -0x1_0000_0000 <= dy <= 0x1_0000_0000,
    ;
    assert(0 <= reach * reach <= 0x1_0000_0000_0000_0000) by (nonlinear_arith)
        requires
            0 <= reach <= 0x1_0000_0000,
    ;
    dx * dx + dy * dy < reach * reach
}

/// Tests whether an entry of another entity stops movement.
pub fn has_other_blocker(entries: &Vec<Entry>, entity: &Entity) -> (b: bool)
    ensures
        b == blocked_by_other(entries@, *entity),
{
    let mut i: usize = 0;
    while i < entries.len()
        invariant
            i <= entries.len(),
            forall|j: int| 0 <= j < i ==> !((#[trigger] entries@[j]).0 != *entity && entries@[j].1),
        decreases entries.len() - i,
    {
        let e = entries[i];
        if e.0 != *entity && e.1 {
            return true;
        }
        i = i + 1;
    }
    false
}

/// Tests whether an entry stops sight.
pub fn has_sight_blocker(entries: &Vec<Entry>) -> (b: bool)
    ensures
        b == any_sight_blocking(entries@),
{
    let mut i: usize = 0;
    while i < entries.len()
        invariant
            i <= entries.len(),
            forall|j: int| 0 <= j < i ==> !(#[trigger] entries@[j]).2,
        decreases entries.len() - i,
    {
        if entries[i].2 {
            return true;
        }
        i = i + 1;
    }
    false
}

/// One level of the tower.
pub struct Maps {
    pub characters: EntityMap,
    pub items: EntityMap,
    pub tiles: TileMap,
}

impl Maps {
    pub open spec fn wf(&self) -> bool {
        self.characters.wf() && self.items.wf() && self.tiles.wf()
    }

    /// The index of the kind given.
    pub open spec fn index(&self, kind: MapKind) -> &EntityMap {
        match kind {
            MapKind::Item => &self.items,
            MapKind::Character => &self.characters,
        }
    }

    /// A level of bedrock without occupants.
    pub fn new() -> (m: Maps)
        ensures
            m.wf(),
            m.tiles.rooms == 0,
            forall|p: Cell| #[trigger] m.characters.cell(p) == Seq::<Entry>::empty(),
            forall|p: Cell| #[trigger] m.items.cell(p) == Seq::<Entry>::empty(),
            forall|p: Cell| #[trigger] m.tiles.tile(p) == crate::tile_map::Tile::spec_bedrock(),
    {
        Maps { characters: EntityMap::new(), items: EntityMap::new(), tiles: TileMap::new() }
    }

    /// The cell of the map under a screen position, if there is one.
    pub fn screen_to_map(&self, pos: Cell) -> (r: Option<Cell>)
        ensures
            r == if 0 <= pos.0 < MAP_WIDTH && 0 <= pos.1 - MAP_Y < MAP_HEIGHT {
                Some((pos.0, (pos.1 - MAP_Y) as i32))
            } else {
                None
            },
    {
        let y: i64 = pos.1 as i64 - MAP_Y as i64;
        if pos.0 >= 0 && pos.0 < MAP_WIDTH && y >= 0 && y < MAP_HEIGHT as i64 {
            Some((pos.0, y as i32))
        } else {
            None
        }
    }

    /// Whether the terrain of the cell stops movement.
    pub fn is_blocking(&self, p: Cell) -> (b: bool)
        requires
            self.wf(),
        ensures
            b == self.tiles.blocking(p),
    {
        self.tiles.is_blocking(p)
    }

    /// Whether a projectile stops at the cell: it does where the cell is
    /// undiscovered or its terrain stops movement. Occupants do not count.
    pub open spec fn projectile_blocking(&self, p: Cell) -> bool {
        !self.tiles.discovered(p) || self.tiles.blocking(p)
    }

    pub fn is_projectile_blocking(&self, p: Cell) -> (b: bool)
        requires
            self.wf(),
        ensures
            b == self.projectile_blocking(p),
    {
        !self.tiles.is_discovered(p) || self.tiles.is_blocking(p)
    }

    /// Whether `entity` cannot plan a step onto the cell: the cell is
    /// undiscovered, its terrain stops movement, or a character other than
    /// `entity` that stops movement stands on it.
    pub open spec fn not_planable(&self, entity: Entity, p: Cell) -> bool {
        ||| !self.tiles.discovered(p)
        ||| self.tiles.blocking(p)
        ||| blocked_by_other(self.characters.cell(p), entity)
    }

    pub fn is_not_planable(&self, entity: &Entity, p: Cell) -> (b: bool)
        requires
            self.wf(),
        ensures
            b == self.not_planable(*entity, p),
    {
        if !self.tiles.is_discovered(p) || self.tiles.is_blocking(p) {
            return true;
        }
        has_other_blocker(self.characters.get(p), entity)
    }

    /// Whether the cell stops sight: its terrain does, or a character on it.
    pub open spec fn sight_blocking(&self, p: Cell) -> bool {
        self.tiles.sight_blocking(p) || any_sight_blocking(self.characters.cell(p))
    }

    pub fn is_sight_blocking(&self, p: Cell) -> (b: bool)
        requires
            self.wf(),
        ensures
            b == self.sight_blocking(p),
    {
        if self.tiles.is_sight_blocking(p) {
            return true;
        }
        has_sight_blocker(self.characters.get(p))
    }

    /// Whether `entity` can walk `route` from `from`: every cell of it can be
    /// planned and is one step from the cell before it.
    pub open spec fn is_walk(&self, entity: Entity, from: Cell, route: Seq<Cell>) -> bool {
        forall|i: int| 0 <= i < route.len() ==> #[trigger] self.walk_step(entity, from, route, i)
    }

    /// Whether `entity` can plan a step onto the `i`-th cell of `route`, and
    /// that cell is one step from the cell before it.
    pub open spec fn walk_step(&self, entity: Entity, from: Cell, route: Seq<Cell>, i: int) -> bool {
        !self.not_planable(entity, route[i]) && adjacent(
            if i == 0 {
                from
            } else {
                route[i - 1]
            },
            route[i],
        )
    }

    /// Whether `route` is a walk of `entity` from `from` to `to`.
    pub open spec fn walk_joins(&self, entity: Entity, from: Cell, to: Cell, route: Seq<Cell>) -> bool {
        self.is_walk(entity, from, route) && route.len() > 0 && route.last() == to
    }

    /// The cells that `entity` can plan a step onto.
    pub fn passability(&self, entity: &Entity) -> (grid: Passability)
        requires
            self.wf(),
        ensures
            grid.wf(),
            forall|c: Cell| grid.passable(c) == !self.not_planable(*entity, c),
    {
        let mut grid = Passability::new();
        let mut x: i32 = 0;
        while x < MAP_WIDTH
            invariant
                0 <= x <= MAP_WIDTH,
                self.wf(),
                grid.wf(),
                forall|c: Cell|
                    grid.passable(c) == (c.0 < x && on_map(c) && !self.not_planable(*entity, c)),
            decreases MAP_WIDTH - x,
        {
            let mut y: i32 = 0;
            while y < MAP_HEIGHT
                invariant
                    0 <= x < MAP_WIDTH,
                    0 <= y <= MAP_HEIGHT,
                    self.wf(),
                    grid.wf(),
                    forall|c: Cell|
                        grid.passable(c) == ((c.0 < x || (c.0 == x && c.1 < y)) && on_map(c)
                            && !self.not_planable(*entity, c)),
                decreases MAP_HEIGHT - y,
            {
                let open = !self.is_not_planable(entity, (x, y));
                grid.set((x, y), open);
                y = y + 1;
            }
            x = x + 1;
        }
        grid
    }

    /// A shortest walk of `entity` from `from` to `to`: its cells in the
    /// order in which they are walked, `from` itself left out. Steps go
    /// north, east, south or west. The result is empty where the two cells
    /// are the same, and where no walk joins them.
    pub fn find_path(&self, entity: &Entity, from: Cell, to: Cell) -> (path: Vec<Cell>)
        requires
            self.wf(),
        ensures
            from == to ==> path@.len() == 0,
            path@.len() > 0 ==> self.walk_joins(*entity, from, to, path@),
            forall|route: Seq<Cell>|
                path@.len() > 0 && self.walk_joins(*entity, from, to, route) ==> path@.len()
                    <= route.len(),
            from != to && (exists|route: Seq<Cell>| self.walk_joins(*entity, from, to, route))
                ==> path@.len() > 0,
            (forall|route: Seq<Cell>| !self.walk_joins(*entity, from, to, route)) ==> path@.len()
                == 0,
    {
        let grid = self.passability(entity);
        let path = find_route(&grid, from, to);
        proof {
            assert forall|route: Seq<Cell>| #[trigger]
                self.walk_joins(*entity, from, to, route) == joins(&grid, from, to, route) by {
                lemma_walk_is_route(self, *entity, &grid, from, route);
            }
            if from != to && (exists|route: Seq<Cell>| self.walk_joins(*entity, from, to, route)) {
                let route = choose|route: Seq<Cell>| self.walk_joins(*entity, from, to, route);
                assert(joins(&grid, from, to, route));
            }
            if path@.len() > 0 {
                assert(joins(&grid, from, to, path@));
                assert(self.walk_joins(*entity, from, to, path@));
            }
        }
        path
    }

    /// The first cells of `cells` that a projectile from `from` passes: up to
    /// the first that stops it or lies beyond `length`.
    pub open spec fn flight(&self, from: Cell, length: int, cells: Seq<Cell>) -> Seq<Cell>
        decreases cells.len(),
    {
        if cells.len() == 0 {
            Seq::empty()
        } else if self.projectile_blocking(cells[0]) || !within_reach(from, cells[0], length) {
            Seq::empty()
        } else {
            seq![cells[0]] + self.flight(from, length, cells.skip(1))
        }
    }

    /// The cells that a projectile passes on its way from `from` in the
    /// direction of `to`: the cells of the ray after `from`, up to the first
    /// that stops it or lies further than `length` away.
    pub open spec fn ray_cells(&self, from: Cell, to: Cell, length: int) -> Seq<Cell> {
        self.flight(from, length, Ray { x1: from.0, y1: from.1, x2: to.0, y2: to.1 }.cell_seq().skip(1))
    }

    pub fn draw_ray(&self, from: Cell, to: Cell, length: i32) -> (cells: Vec<Cell>)
        requires
            self.wf(),
        ensures
            cells@ == self.ray_cells(from, to, length as int),
    {
        let mut cells: Vec<Cell> = Vec::new();
        let mut it = Ray::new(from, to).into_iter();
        let ghost all = it.remaining();
        let first = it.next();
        assert(first.is_some()) by {
            assert(it.ray().reaches(0));
        }
        assert(Seq::<Cell>::empty() + self.flight(from, length as int, all.skip(1)) == self.flight(
            from,
            length as int,
            all.skip(1),
        ));
        loop
            invariant
                self.wf(),
                it.wf(),
                all == (Ray { x1: from.0, y1: from.1, x2: to.0, y2: to.1 }).cell_seq(),
                cells@ + self.flight(from, length as int, it.remaining()) == self.flight(
                    from,
                    length as int,
                    all.skip(1),
                ),
            decreases it.remaining().len(),
        {
            let ghost before = it.remaining();
            match it.next() {
                Some(p) => {
                    if self.is_projectile_blocking(p) || !is_within_reach(from, p, length) {
                        assert(cells@ + Seq::<Cell>::empty() == cells@);
                        return cells;
                    }
                    proof {
                        let rest = self.flight(from, length as int, before.skip(1));
                        assert(cells@.push(p) + rest == cells@ + (seq![p] + rest));
                    }
                    cells.push(p);
                },
                None => {
                    assert(cells@ + Seq::<Cell>::empty() == cells@);
                    return cells;
                },
            }
        }
    }

    /// The entities of a kind in the cells given, cell after cell.
    fn collect(&self, kind: MapKind, cells: &Vec<Cell>) -> (found: Vec<Entity>)
        requires
            self.wf(),
        ensures
            found@ == occupants(self.index(kind), cells@),
    {
        let index = match kind {
            MapKind::Item => &self.items,
            MapKind::Character => &self.characters,
        };
        let mut found: Vec<Entity> = Vec::new();
        let mut k: usize = 0;
        assert(cells@.skip(0) == cells@);
        assert(Seq::<Entity>::empty() + occupants(index, cells@) == occupants(index, cells@));
        while k < cells.len()
            invariant
                k <= cells@.len(),
                index.wf(),
                index == self.index(kind),
                found@ + occupants(index, cells@.skip(k as int)) == occupants(index, cells@),
            decreases cells@.len() - k,
        {
            let p = cells[k];
            let ghost rest = occupants(index, cells@.skip(k as int + 1));
            let ghost here = entities_of(index.cell(p));
            let ghost base = found@;
            proof {
                assert(cells@.skip(k as int).skip(1) == cells@.skip(k as int + 1));
                assert(cells@.skip(k as int)[0] == p);
            }
            if is_on_map(p) {
                let entries = index.get(p);
                let mut i: usize = 0;
                while i < entries.len()
                    invariant
                        i <= entries@.len(),
                        entries@ == index.cell(p),
                        here == entities_of(index.cell(p)),
                        found@ == base + here.take(i as int),
                    decreases entries@.len() - i,
                {
                    found.push(entries[i].0);
                    assert(here.take(i as int + 1) == here.take(i as int).push(here[i as int]));
                    i = i + 1;
                }
                assert(here.take(i as int) == here);
            } else {
                assert(here == Seq::<Entity>::empty());
                assert(base + here == base);
            }
            assert(found@ + rest == base + (here + rest));
            k = k + 1;
        }
        assert(cells@.skip(k as int) == Seq::<Cell>::empty());
        assert(found@ + Seq::<Entity>::empty() == found@);
        found
    }

    /// The characters that a projectile meets on its way from `from` in the
    /// direction of `to`, nearest first.
    pub fn collect_characters_with_ray(&self, from: Cell, to: Cell, length: i32) -> (found: Vec<
        Entity,
    >)
        requires
            self.wf(),
        ensures
            found@ == occupants(&self.characters, self.ray_cells(from, to, length as int)),
    {
        let cells = self.draw_ray(from, to, length);
        self.collect(MapKind::Character, &cells)
    }

    /// The cells of a shape.
    fn cells_of<T: Shape>(shape: T) -> (cells: Vec<Cell>)
        ensures
            cells@ == shape_cells(shape),
    {
        let mut it = ShapeIter::new(shape);
        let mut cells: Vec<Cell> = Vec::new();
        loop
            invariant
                it.wf(),
                cells@ + it.remaining() == shape_cells(shape),
            decreases it.remaining().len(),
        {
            let ghost before = it.remaining();
            match it.next() {
                Some(c) => {
                    proof {
                        lemma_iter_step(cells@, before, shape_cells(shape));
                    }
                    cells.push(c);
                },
                None => {
                    assert(cells@ + Seq::<Cell>::empty() == cells@);
                    return cells;
                },
            }
        }
    }

    /// The characters in the cells of a shape, cell after cell.
    pub fn collect_characters_with_shape<T: Shape>(&self, shape: T) -> (found: Vec<Entity>)
        requires
            self.wf(),
        ensures
            found@ == occupants(&self.characters, shape_cells(shape)),
    {
        let cells = Self::cells_of(shape);
        self.collect(MapKind::Character, &cells)
    }

    /// The items in the cells of a shape, cell after cell.
    pub fn collect_items_with_shape<T: Shape>(&self, shape: T) -> (found: Vec<Entity>)
        requires
            self.wf(),
        ensures
            found@ == occupants(&self.items, shape_cells(shape)),
    {
        let cells = Self::cells_of(shape);
        self.collect(MapKind::Item, &cells)
    }

    /// Builds the terrain of the first level.
    pub fn build(&mut self)
        requires
            old(self).wf(),
            old(self).tiles.rooms <= i32::MAX - 5,
        ensures
            final(self).wf(),
            final(self).characters == old(self).characters,
            final(self).items == old(self).items,
            final(self).tiles.rooms == old(self).tiles.rooms + 5,
            forall|p: Cell|
                #[trigger] final(self).tiles.tile(p) == crate::tile_map::layout_tile(
                    old(self).tiles.tile(p),
                    p,
                    old(self).tiles.rooms,
                ),
    {
        self.tiles.build();
    }

    /// Marks every cell that is in sight as discovered.
    pub fn update(&mut self, fov: &Visibility)
        requires
            old(self).wf(),
            fov.wf(),
        ensures
            final(self).wf(),
            final(self).characters == old(self).characters,
            final(self).items == old(self).items,
            final(self).tiles.rooms == old(self).tiles.rooms,
            forall|p: Cell|
                #[trigger] final(self).tiles.tile(p) == old(self).tiles.tile(p).seen(fov.sees(p)),
    {
        self.tiles.update(fov);
    }

    /// The glyphs of the discovered tiles in the viewport.
    pub fn draw(&self, fov: &Visibility, viewport: &Viewport) -> (glyphs: Vec<Glyph>)
        requires
            self.wf(),
            fov.wf(),
        ensures
            glyphs@ == crate::tile_map::glyphs_of(&self.tiles, fov, viewport, viewport.r.cell_seq()),
    {
        self.tiles.draw(fov, viewport)
    }

    /// Removes every character and every item.
    pub fn clear_all(&mut self)
        requires
            old(self).wf(),
        ensures
            final(self).wf(),
            final(self).characters.each_once(),
            final(self).items.each_once(),
            final(self).tiles == old(self).tiles,
            forall|p: Cell| #[trigger] final(self).characters.cell(p) == Seq::<Entry>::empty(),
            forall|p: Cell| #[trigger] final(self).items.cell(p) == Seq::<Entry>::empty(),
    {
        self.items.clear();
        self.characters.clear();
    }

    /// Moves the first entry of `entity` in `from` to `to`, flags and all.
    /// Nothing happens where the two cells are the same or `entity` has no
    /// entry in `from`.
    pub fn move_entity(&mut self, kind: MapKind, entity: &Entity, from: Cell, to: Cell)
        requires
            old(self).wf(),
            on_map(from),
            on_map(to),
        ensures
            final(self).wf(),
            final(self).tiles == old(self).tiles,
            kind == MapKind::Item ==> final(self).characters == old(self).characters,
            kind == MapKind::Character ==> final(self).items == old(self).items,
            forall|q: Cell|
                q != from && q != to ==> #[trigger] final(self).index(kind).cell(q) == old(self).index(kind).cell(q),
            match position_of(old(self).index(kind).cell(from), *entity) {
                Some(i) if from != to => {
                    &&& final(self).index(kind).cell(from) == without(
                        old(self).index(kind).cell(from),
                        i,
                    )
                    &&& final(self).index(kind).cell(to) == old(self).index(kind).cell(to).push(
                        old(self).index(kind).cell(from)[i],
                    )
                },
                _ => {
                    &&& final(self).index(kind).cell(from) == old(self).index(kind).cell(from)
                    &&& final(self).index(kind).cell(to) == old(self).index(kind).cell(to)
                },
            },
            old(self).index(kind).each_once() ==> final(self).index(kind).each_once(),
    {
        if from.0 != to.0 || from.1 != to.1 {
            match kind {
                MapKind::Item => {
                    move_in(&mut self.items, entity, from, to);
                },
                MapKind::Character => {
                    move_in(&mut self.characters, entity, from, to);
                },
            }
        }
    }

    /// Takes the first entry of `entity` out of the cell and returns it.
    pub fn remove(&mut self, kind: MapKind, entity: &Entity, p: Cell) -> (r: Option<Entry>)
        requires
            old(self).wf(),
            on_map(p),
        ensures
            final(self).wf(),
            final(self).tiles == old(self).tiles,
            kind == MapKind::Item ==> final(self).characters == old(self).characters,
            kind == MapKind::Character ==> final(self).items == old(self).items,
            forall|q: Cell|
                q != p ==> #[trigger] final(self).index(kind).cell(q) == old(self).index(
                    kind,
                ).cell(q),
            match position_of(old(self).index(kind).cell(p), *entity) {
                Some(i) => r == Some(old(self).index(kind).cell(p)[i]) && final(self).index(
                    kind,
                ).cell(p) == without(old(self).index(kind).cell(p), i),
                None => r.is_none() && final(self).index(kind).cell(p) == old(self).index(
                    kind,
                ).cell(p),
            },
            old(self).index(kind).each_once() ==> final(self).index(kind).each_once(),
            old(self).index(kind).each_once() && r.is_some() ==> !final(self).index(kind).holds(
                *entity,
            ),
    {
        match kind {
            MapKind::Item => self.items.remove(entity, p),
            MapKind::Character => self.characters.remove(entity, p),
        }
    }

    /// Adds `entity` to the cell, as an occupant that stops movement and
    /// lets sight pass.
    pub fn push(&mut self, kind: MapKind, entity: &Entity, p: Cell)
        requires
            old(self).wf(),
            on_map(p),
        ensures
            final(self).wf(),
            final(self).tiles == old(self).tiles,
            kind == MapKind::Item ==> final(self).characters == old(self).characters,
            kind == MapKind::Character ==> final(self).items == old(self).items,
            final(self).index(kind).cell(p) == old(self).index(kind).cell(p).push(
                Entry(*entity, true, false),
            ),
            forall|q: Cell|
                q != p ==> #[trigger] final(self).index(kind).cell(q) == old(self).index(
                    kind,
                ).cell(q),
            old(self).index(kind).each_once() && !old(self).index(kind).holds(*entity) ==> final(self).index(kind).each_once(),
    {
        match kind {
            MapKind::Item => self.items.push(entity, p),
            MapKind::Character => self.characters.push(entity, p),
        }
    }

    /// Takes the newest entry out of the cell and returns it.
    pub fn pop(&mut self, kind: MapKind, p: Cell) -> (r: Option<Entry>)
        requires
            old(self).wf(),
            on_map(p),
        ensures
            final(self).wf(),
            final(self).tiles == old(self).tiles,
            kind == MapKind::Item ==> final(self).characters == old(self).characters,
            kind == MapKind::Character ==> final(self).items == old(self).items,
            forall|q: Cell|
                q != p ==> #[trigger] final(self).index(kind).cell(q) == old(self).index(
                    kind,
                ).cell(q),
            old(self).index(kind).cell(p).len() == 0 ==> r.is_none() && final(self).index(
                kind,
            ).cell(p) == old(self).index(kind).cell(p),
            old(self).index(kind).cell(p).len() > 0 ==> r == Some(
                old(self).index(kind).cell(p).last(),
            ) && final(self).index(kind).cell(p) == old(self).index(kind).cell(p).drop_last(),
            old(self).index(kind).each_once() ==> final(self).index(kind).each_once(),
    {
        match kind {
            MapKind::Item => self.items.pop(p),
            MapKind::Character => self.characters.pop(p),
        }
    }

    /// Sets the blocking flag of the first entry of `entity` in the cell.
    pub fn set_blocking(&mut self, kind: MapKind, entity: &Entity, p: Cell, blocking: bool)
        requires
            old(self).wf(),
            on_map(p),
        ensures
            final(self).wf(),
            final(self).tiles == old(self).tiles,
            kind == MapKind::Item ==> final(self).characters == old(self).characters,
            kind == MapKind::Character ==> final(self).items == old(self).items,
            final(self).index(kind).cell(p) == with_blocking(
                old(self).index(kind).cell(p),
                *entity,
                blocking,
            ),
            forall|q: Cell|
                q != p ==> #[trigger] final(self).index(kind).cell(q) == old(self).index(
                    kind,
                ).cell(q),
            old(self).index(kind).each_once() ==> final(self).index(kind).each_once(),
    {
        match kind {
            MapKind::Item => self.items.set_blocking(entity, p, blocking),
            MapKind::Character => self.characters.set_blocking(entity, p, blocking),
        }
    }

    /// Sets the sight-blocking flag of the first entry of `entity` in the
    /// cell.
    pub fn set_sight_blocking(&mut self, kind: MapKind, entity: &Entity, p: Cell, blocking: bool)
        requires
            old(self).wf(),
            on_map(p),
        ensures
            final(self).wf(),
            final(self).tiles == old(self).tiles,
            kind == MapKind::Item ==> final(self).characters == old(self).characters,
            kind == MapKind::Character ==> final(self).items == old(self).items,
            final(self).index(kind).cell(p) == with_sight_blocking(
                old(self).index(kind).cell(p),
                *entity,
                blocking,
            ),
            forall|q: Cell|
                q != p ==> #[trigger] final(self).index(kind).cell(q) == old(self).index(
                    kind,
                ).cell(q),
            old(self).index(kind).each_once() ==> final(self).index(kind).each_once(),
    {
        match kind {
            MapKind::Item => self.items.set_sight_blocking(entity, p, blocking),
            MapKind::Character => self.characters.set_sight_blocking(entity, p, blocking),
        }
    }
}

/// Moves the first entry of `entity` in `from` to `to`, two different
/// cells.
fn move_in(index: &mut EntityMap, entity: &Entity, from: Cell, to: Cell)
    requires
        old(index).wf(),
        on_map(from),
        on_map(to),
        from != to,
    ensures
        final(index).wf(),
        forall|q: Cell|
            q != from && q != to ==> #[trigger] final(index).cell(q) == old(index).cell(q),
        match position_of(old(index).cell(from), *entity) {
            Some(i) => {
                &&& final(index).cell(from) == without(old(index).cell(from), i)
                &&& final(index).cell(to) == old(index).cell(to).push(old(index).cell(from)[i])
            },
            None => {
                &&& final(index).cell(from) == old(index).cell(from)
                &&& final(index).cell(to) == old(index).cell(to)
            },
        },
        old(index).each_once() ==> final(index).each_once(),
{
    let taken = index.remove(entity, from);
    let ghost mid = *index;
    if let Some(entry) = taken {
        index.push_entry(entry, to);
        proof {
            if old(index).each_once() {
                lemma_position_of(old(index).cell(from), *entity);
                let i = position_of(old(index).cell(from), *entity).unwrap();
                lemma_remove_keeps_once(old(index), &mid, from, i);
                lemma_push_keeps_once(&mid, index, entry, to);
            }
        }
    }
}

/// On a grid that holds what an entity can plan, its walks are the routes.
proof fn lemma_walk_is_route(
    maps: &Maps,
    entity: Entity,
    grid: &Passability,
    from: Cell,
    route: Seq<Cell>,
)
    requires
        forall|c: Cell| grid.passable(c) == !maps.not_planable(entity, c),
    ensures
        maps.is_walk(entity, from, route) == is_route(grid, from, route),
{
    if maps.is_walk(entity, from, route) {
        assert forall|i: int| 0 <= i < route.len() implies #[trigger] step_ok(
            grid,
            from,
            route,
            i,
        ) by {
            assert(maps.walk_step(entity, from, route, i));
        }
    }
    if is_route(grid, from, route) {
        assert forall|i: int| 0 <= i < route.len() implies #[trigger] maps.walk_step(
            entity,
            from,
            route,
            i,
        ) by {
            assert(step_ok(grid, from, route, i));
        }
    }
}

/// Taking an entry out of a cell leaves the others: each of them is still
/// there, and nothing is there that was not.
pub proof fn lemma_without_keeps_others(entries: Seq<Entry>, i: int)
    requires
        0 <= i < entries.len(),
    ensures
        without(entries, i).len() == entries.len() - 1,
        forall|j: int|
            0 <= j < entries.len() && j != i ==> without(entries, i).contains(#[trigger] entries[j]),
        forall|k: int|
            0 <= k < without(entries, i).len() ==> exists|j: int|
                0 <= j < entries.len() && j != i && entries[j] == #[trigger] without(entries, i)[k],
{
    let rest = without(entries, i);
    let last = entries.len() - 1;
    assert forall|j: int| 0 <= j < entries.len() && j != i implies rest.contains(
        #[trigger] entries[j],
    ) by {
        if j == last {
            assert(rest[i] == entries[j]);
        } else {
            assert(rest[j] == entries[j]);
        }
    }
    assert forall|k: int| 0 <= k < rest.len() implies exists|j: int|
        0 <= j < entries.len() && j != i && entries[j] == #[trigger] rest[k] by {
        if k == i {
            assert(entries[last] == rest[k]);
        } else {
            assert(entries[k] == rest[k]);
        }
    }
}

/// A cell walled in cannot be walked to from outside: where `inside` holds
/// `to` but not `from`, and `entity` can plan a step onto no cell of
/// `inside` that is next to a cell outside it, no walk joins the two.
pub proof fn lemma_enclosed_no_walk(
    maps: &Maps,
    entity: Entity,
    from: Cell,
    to: Cell,
    inside: Set<Cell>,
    route: Seq<Cell>,
)
    requires
        inside.contains(to),
        !inside.contains(from),
        forall|c: Cell, n: Cell|
            inside.contains(c) && !inside.contains(n) && adjacent(n, c) ==> maps.not_planable(
                entity,
                c,
            ),
    ensures
        !maps.walk_joins(entity, from, to, route),
{
    if maps.walk_joins(entity, from, to, route) {
        lemma_walk_stays_outside(maps, entity, from, inside, route, route.len() - 1);
    }
}

/// A walk that starts outside a walled region never enters it.
proof fn lemma_walk_stays_outside(
    maps: &Maps,
    entity: Entity,
    from: Cell,
    inside: Set<Cell>,
    route: Seq<Cell>,
    i: int,
)
    requires
        maps.is_walk(entity, from, route),
        0 <= i < route.len(),
        !inside.contains(from),
        forall|c: Cell, n: Cell|
            inside.contains(c) && !inside.contains(n) && adjacent(n, c) ==> maps.not_planable(
                entity,
                c,
            ),
    ensures
        !inside.contains(route[i]),
    decreases i,
{
    assert(maps.walk_step(entity, from, route, i));
    if i > 0 {
        lemma_walk_stays_outside(maps, entity, from, inside, route, i - 1);
    }
}

} // verus!
