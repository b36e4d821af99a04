//! The terrain of a level: a fixed grid of tiles, built by stamping rooms
//! and corridors, and discovered as it comes into sight.

use vstd::prelude::*;
use crate::appearance::Color;
use crate::geometry::{fits, lemma_shape_cells, lemma_vertical_line_cells, shape_cells, Cell, Line, Rect, Shape, ShapeIter};
use crate::space::{cell_index, index_of, is_on_map, on_map, Viewport, Visibility, MAP_HEIGHT, MAP_WIDTH};

verus! {

/// One cell of terrain.
#[derive(Copy, Clone, Debug, PartialEq, Eq)]
pub struct Tile {
    /// Whether the tile stops movement.
    pub blocking: bool,
    /// Whether the tile stops sight.
    pub sight_blocking: bool,
    /// Whether the tile has ever been in sight.
    pub discovered: bool,
    /// Whether the tile is the wall of a room.
    pub wall: bool,
    /// The room that the tile belongs to.
    pub room: Option<i32>,
}

impl Tile {
    /// An undiscovered tile; one that stops movement stops sight too.
    pub fn create(blocking: bool, wall: bool, room: Option<i32>) -> (t: Tile)
        ensures
            t == Self::created(blocking, wall, room),
    {
        Tile { blocking, sight_blocking: blocking, discovered: false, wall, room }
    }

    pub open spec fn created(blocking: bool, wall: bool, room: Option<i32>) -> Tile {
        Tile { blocking, sight_blocking: blocking, discovered: false, wall, room }
    }

    /// Solid rock outside every room.
    pub fn bedrock() -> (t: Tile)
        ensures
            t == Self::spec_bedrock(),
    {
        Tile::create(true, false, None)
    }

    pub open spec fn spec_bedrock() -> Tile {
        Self::created(true, false, None)
    }

    /// A wall of the room `room`.
    pub fn wall(room: i32) -> (t: Tile)
        ensures
            t == Self::spec_wall(room),
    {
        Tile::create(true, true, Some(room))
    }

    pub open spec fn spec_wall(room: i32) -> Tile {
        Self::created(true, true, Some(room))
    }

    /// Open floor of the room `room`.
    pub fn floor(room: i32) -> (t: Tile)
        ensures
            t == Self::spec_floor(room),
    {
        Tile::create(false, false, Some(room))
    }

    pub open spec fn spec_floor(room: i32) -> Tile {
        Self::created(false, false, Some(room))
    }

    /// The character of the tile: none while undiscovered or for bedrock.
    pub open spec fn glyph(&self) -> Option<char> {
        if !self.discovered {
            None
        } else if self.wall {
            Some('#')
        } else if !self.blocking {
            Some('.')
        } else {
            None
        }
    }

    pub fn character(&self) -> (c: Option<char>)
        ensures
            c == self.glyph(),
    {
        if !self.discovered {
            return None;
        }
        if self.wall {
            return Some('#');
        } else if !self.blocking {
            return Some('.');
        }
        None
    }

    /// The foreground colour: bright in sight, dim when only remembered.
    pub fn fg_color(&self, visible: bool) -> (c: Color)
        ensures
            c == if !self.discovered {
                Color::Black
            } else if visible {
                Color::LightestGrey
            } else {
                Color::DarkGreen
            },
    {
        if !self.discovered {
            return Color::Black;
        }
        if visible {
            Color::LightestGrey
        } else {
            Color::DarkGreen
        }
    }

    /// The background colour: lighter for a discovered obstacle in sight.
    pub fn bg_color(&self, visible: bool) -> (c: Color)
        ensures
            c == if self.discovered && self.blocking && visible {
                Color::DarkerGrey
            } else {
                Color::DarkestGrey
            },
    {
        if !self.discovered || !self.blocking || !visible {
            return Color::DarkestGrey;
        }
        Color::DarkerGrey
    }

    /// Marks the tile as discovered if it is in sight; never the reverse.
    pub fn update(&mut self, visible: bool)
        ensures
            *final(self) == old(self).seen(visible),
    {
        self.discovered = self.discovered || visible;
    }

    /// The tile after a tick in which it was in sight or not.
    pub open spec fn seen(&self, visible: bool) -> Tile {
        Tile { discovered: self.discovered || visible, ..*self }
    }
}

/// The tile that stamping a room leaves on one of its cells.
pub open spec fn room_tile(boundary: bool, id: i32) -> Tile {
    if boundary {
        Tile::spec_wall(id)
    } else {
        Tile::spec_floor(id)
    }
}

/// The tile that cutting a block out of a room leaves on a cell of the
/// block: nothing changes outside rooms; inside, the rim of the block
/// becomes wall of the room and the rest bedrock.
pub open spec fn anti_room_tile(before: Tile, boundary: bool) -> Tile {
    match before.room {
        Some(id) => if boundary {
            Tile::spec_wall(id)
        } else {
            Tile::spec_bedrock()
        },
        None => before,
    }
}

/// The tile that stamping a corridor leaves on one of its cells: a cell of
/// an existing room stays with that room and is wall only where both the
/// room and the corridor have a wall.
pub open spec fn corridor_tile(before: Tile, boundary: bool, id: i32) -> Tile {
    match before.room {
        Some(old_id) => if before.wall && boundary {
            Tile::spec_wall(old_id)
        } else {
            Tile::spec_floor(old_id)
        },
        None => room_tile(boundary, id),
    }
}

/// The tile that drawing a wall line leaves on one of its cells.
pub open spec fn line_tile(before: Tile) -> Tile {
    match before.room {
        Some(id) => Tile::spec_wall(id),
        None => before,
    }
}

/// Whether a cell lies in the rectangle of width `w` and height `h` whose
/// first cell is `(x, y)`.
pub open spec fn in_rect(p: Cell, x: int, y: int, w: int, h: int) -> bool {
    x <= p.0 < x + w && y <= p.1 < y + h
}

/// Whether a cell lies in the first or last column or row of that
/// rectangle.
pub open spec fn on_rim(p: Cell, x: int, y: int, w: int, h: int) -> bool {
    p.0 == x || p.0 == x + w - 1 || p.1 == y || p.1 == y + h - 1
}

/// The tile that building the first level leaves on a cell, where `before`
/// was there and `id` is the number of the first new room: a hall with a
/// pillar and a wall from the pillar toward the north, two rooms to the
/// west, and two corridors that join all three.
pub open spec fn layout_tile(before: Tile, p: Cell, id: i32) -> Tile {
    let hall = if in_rect(p, 20, 20, 15, 15) {
        room_tile(on_rim(p, 20, 20, 15, 15), id)
    } else {
        before
    };
    let pillar = if in_rect(p, 25, 25, 5, 5) {
        anti_room_tile(hall, on_rim(p, 25, 25, 5, 5))
    } else {
        hall
    };
    let wall = if p.0 == 25 && 22 <= p.1 <= 27 {
        line_tile(pillar)
    } else {
        pillar
    };
    let south = if in_rect(p, 10, 25, 5, 5) {
        room_tile(on_rim(p, 10, 25, 5, 5), (id + 1) as i32)
    } else {
        wall
    };
    let north = if in_rect(p, 10, 12, 8, 8) {
        room_tile(on_rim(p, 10, 12, 8, 8), (id + 2) as i32)
    } else {
        south
    };
    let down = if in_rect(p, 10, 18, 3, 9) {
        corridor_tile(north, on_rim(p, 10, 18, 3, 9), (id + 3) as i32)
    } else {
        north
    };
    if in_rect(p, 13, 27, 9, 3) {
        corridor_tile(down, on_rim(p, 13, 27, 9, 3), (id + 4) as i32)
    } else {
        down
    }
}

/// A tile after ticks in which it was in sight or not, one flag per tick.
pub open spec fn seen_all(tile: Tile, ticks: Seq<bool>) -> Tile
    decreases ticks.len(),
{
    if ticks.len() == 0 {
        tile
    } else {
        seen_all(tile, ticks.drop_last()).seen(ticks.last())
    }
}

/// Discovery never reverts: a tile that is discovered stays discovered
/// through any number of ticks, and the ticks change nothing else of it.
pub proof fn lemma_discovery_monotone(tile: Tile, ticks: Seq<bool>, n: int)
    requires
        0 <= n <= ticks.len(),
    ensures
        seen_all(tile, ticks.take(n)).discovered ==> seen_all(tile, ticks).discovered,
        tile.discovered ==> seen_all(tile, ticks).discovered,
        seen_all(tile, ticks) == (Tile { discovered: seen_all(tile, ticks).discovered, ..tile }),
    decreases ticks.len(),
{
    if ticks.len() > 0 {
        let front = ticks.drop_last();
        if n == ticks.len() {
            assert(ticks.take(n) == ticks);
            lemma_discovery_monotone(tile, front, 0);
        } else {
            assert(front.take(n) == ticks.take(n));
            lemma_discovery_monotone(tile, front, n);
        }
    } else {
        assert(ticks.take(n) == ticks);
    }
}

/// What to draw at one screen position.
#[derive(Copy, Clone, Debug, PartialEq, Eq)]
pub struct Glyph {
    pub pos: Cell,
    pub bg: Color,
    pub fg: Color,
    pub character: char,
}

/// A piece of a box drawn with single or double lines.
#[derive(Copy, Clone, Debug, PartialEq, Eq, Structural)]
pub enum BoxPiece {
    CornerSouthWest,
    CornerSouthEast,
    CornerNorthWest,
    CornerNorthEast,
    Vertical,
    Horizontal,
    TeeWest,
    TeeEast,
    TeeNorth,
    TeeSouth,
    Cross,
    Block,
}

/// The piece that joins the neighbours given: to the north, east, south and
/// west.
pub open spec fn box_piece(n: bool, e: bool, s: bool, w: bool) -> BoxPiece {
    if n && e && s && w {
        BoxPiece::Cross
    } else if n && e && s {
        BoxPiece::TeeEast
    } else if n && e && w {
        BoxPiece::TeeNorth
    } else if n && s && w {
        BoxPiece::TeeWest
    } else if e && s && w {
        BoxPiece::TeeSouth
    } else if n && e {
        BoxPiece::CornerSouthWest
    } else if n && w {
        BoxPiece::CornerSouthEast
    } else if e && s {
        BoxPiece::CornerNorthWest
    } else if s && w {
        BoxPiece::CornerNorthEast
    } else if n || s {
        BoxPiece::Vertical
    } else if e || w {
        BoxPiece::Horizontal
    } else {
        BoxPiece::Block
    }
}

/// The terrain of a level, column by column.
pub struct TileMap {
    pub map: Vec<Tile>,
    /// Number of rooms and corridors stamped so far.
    pub rooms: i32,
}

/// The glyphs of those of `cells` that have a character.
pub open spec fn glyphs_of(
    tiles: &TileMap,
    fov: &Visibility,
    viewport: &Viewport,
    cells: Seq<Cell>,
) -> Seq<Glyph>
    decreases cells.len(),
{
    if cells.len() == 0 {
        Seq::empty()
    } else {
        let rest = glyphs_of(tiles, fov, viewport, cells.skip(1));
        match tiles.glyph_at(fov, viewport, cells[0]) {
            Some(g) => seq![g] + rest,
            None => rest,
        }
    }
}

impl TileMap {
    pub open spec fn wf(&self) -> bool {
        self.map@.len() == MAP_WIDTH * MAP_HEIGHT
    }

    /// The tile of a cell; bedrock off the map.
    pub open spec fn tile(&self, p: Cell) -> Tile {
        if on_map(p) {
            self.map@[cell_index(p)]
        } else {
            Tile::spec_bedrock()
        }
    }

    /// A map of bedrock.
    pub fn new() -> (m: TileMap)
        ensures
            m.wf(),
            m.rooms == 0,
            forall|p: Cell| #[trigger] m.tile(p) == Tile::spec_bedrock(),
    {
        let mut map: Vec<Tile> = Vec::new();
        let n: usize = (MAP_WIDTH as usize) * (MAP_HEIGHT as usize);
        while map.len() < n
            invariant
                n == MAP_WIDTH * MAP_HEIGHT,
                map@.len() <= n,
                forall|i: int| 0 <= i < map@.len() ==> map@[i] == Tile::spec_bedrock(),
            decreases n - map@.len(),
        {
            map.push(Tile::bedrock());
        }
        TileMap { map, rooms: 0 }
    }

    /// Replaces the tile of a cell of the map.
    fn put(&mut self, p: Cell, tile: Tile)
        requires
            old(self).wf(),
            on_map(p),
        ensures
            final(self).wf(),
            final(self).rooms == old(self).rooms,
            final(self).tile(p) == tile,
            forall|q: Cell| q != p ==> #[trigger] final(self).tile(q) == old(self).tile(q),
    {
        let i = index_of(p);
        self.map[i] = tile;
        assert forall|q: Cell| q != p implies #[trigger] final(self).tile(q) == old(self).tile(
            q,
        ) by {
            if on_map(q) {
                assert(cell_index(q) != cell_index(p));
            }
        }
    }

    /// Marks every cell that is in sight as discovered.
    pub fn update(&mut self, fov: &Visibility)
        requires
            old(self).wf(),
            fov.wf(),
        ensures
            final(self).wf(),
            final(self).rooms == old(self).rooms,
            forall|p: Cell| #[trigger] final(self).tile(p) == old(self).tile(p).seen(fov.sees(p)),
    {
        let mut x: i32 = 0;
        while x < MAP_WIDTH
            invariant
                0 <= x <= MAP_WIDTH,
                self.wf(),
                fov.wf(),
                self.rooms == old(self).rooms,
                forall|p: Cell|
                    on_map(p) ==> #[trigger] self.tile(p) == if p.0 < x {
                        old(self).tile(p).seen(fov.sees(p))
                    } else {
                        old(self).tile(p)
                    },
            decreases MAP_WIDTH - x,
        {
            let mut y: i32 = 0;
            while y < MAP_HEIGHT
                invariant
                    0 <= x < MAP_WIDTH,
                    0 <= y <= MAP_HEIGHT,
                    self.wf(),
                    fov.wf(),
                    self.rooms == old(self).rooms,
                    forall|p: Cell|
                        on_map(p) ==> #[trigger] self.tile(p) == if p.0 < x || (p.0 == x && p.1
                            < y) {
                            old(self).tile(p).seen(fov.sees(p))
                        } else {
                            old(self).tile(p)
                        },
                decreases MAP_HEIGHT - y,
            {
                let visible = fov.is_in_fov((x, y));
                let i = index_of((x, y));
                let mut tile = self.map[i];
                tile.update(visible);
                self.put((x, y), tile);
                y = y + 1;
            }
            x = x + 1;
        }
    }

    /// What to draw for a cell: nothing for a tile without a character, nor
    /// for a cell whose screen position cannot be represented.
    pub open spec fn glyph_at(&self, fov: &Visibility, viewport: &Viewport, p: Cell) -> Option<
        Glyph,
    > {
        let tile = self.tile(p);
        match tile.glyph() {
            Some(character) if fits(p.0 - viewport.r.x1) && fits(p.1 - viewport.r.y1) => Some(
                Glyph {
                    pos: ((p.0 - viewport.r.x1) as i32, (p.1 - viewport.r.y1) as i32),
                    bg: if tile.blocking && fov.sees(p) {
                        Color::DarkerGrey
                    } else {
                        Color::DarkestGrey
                    },
                    fg: if fov.sees(p) {
                        Color::LightestGrey
                    } else {
                        Color::DarkGreen
                    },
                    character,
                },
            ),
            _ => None,
        }
    }

    /// The glyphs of the discovered tiles in the viewport, row by row, each
    /// at its screen position.
    pub fn draw(&self, fov: &Visibility, viewport: &Viewport) -> (glyphs: Vec<Glyph>)
        requires
            self.wf(),
            fov.wf(),
        ensures
            glyphs@ == glyphs_of(self, fov, viewport, viewport.r.cell_seq()),
    {
        let mut glyphs: Vec<Glyph> = Vec::new();
        let mut it = viewport.into_iter();
        let ghost cells = viewport.r.cell_seq();
        let ghost mut done: Seq<Cell> = Seq::empty();
        loop
            invariant
                self.wf(),
                fov.wf(),
                it.wf(),
                it.rect == viewport.r,
                cells == viewport.r.cell_seq(),
                done + it.remaining() == cells,
                glyphs@ + glyphs_of(self, fov, viewport, it.remaining()) == glyphs_of(
                    self,
                    fov,
                    viewport,
                    viewport.r.cell_seq(),
                ),
            decreases it.remaining().len(),
        {
            let ghost before = it.remaining();
            match it.next() {
                Some(pixel) => {
                    let ghost rest = glyphs_of(self, fov, viewport, before.skip(1));
                    proof {
                        lemma_iter_step(done, before, cells);
                        done = done.push(pixel);
                        viewport.r.lemma_cells_covered(pixel);
                    }
                    let tile = self.get(pixel).unwrap_or(Tile::bedrock());
                    let x: i64 = pixel.0 as i64 - viewport.r.x1 as i64;
                    let y: i64 = pixel.1 as i64 - viewport.r.y1 as i64;
                    let on_screen = x <= i32::MAX as i64 && y <= i32::MAX as i64;
                    if let Some(character) = tile.character() {
                        if on_screen {
                            let p = viewport.transform(pixel);
                            let visible = fov.is_in_fov(pixel);
                            let fg = tile.fg_color(visible);
                            let bg = tile.bg_color(visible);
                            let g = Glyph { pos: p, bg, fg, character };
                            assert(self.glyph_at(fov, viewport, pixel) == Some(g));
                            assert(glyphs@.push(g) + rest == glyphs@ + (seq![g] + rest));
                            glyphs.push(g);
                        }
                    }
                },
                None => {
                    assert(glyphs@ + Seq::<Glyph>::empty() == glyphs@);
                    return glyphs;
                },
            }
        }
    }

    /// Stamps a room: its rim becomes wall, the rest floor, of a new room.
    pub fn create_room<T: Shape>(&mut self, room: &T)
        requires
            old(self).wf(),
            old(self).rooms < i32::MAX,
            forall|p: Cell| shape_cells(*room).contains(p) ==> on_map(p),
        ensures
            final(self).wf(),
            final(self).rooms == old(self).rooms + 1,
            forall|p: Cell|
                #[trigger] final(self).tile(p) == if shape_cells(*room).contains(p) {
                    room_tile(room.on_boundary(p), old(self).rooms)
                } else {
                    old(self).tile(p)
                },
    {
        let id = self.rooms;
        self.rooms = self.rooms + 1;
        let ghost cells = shape_cells(*room);
        let ghost mut done: Seq<Cell> = Seq::empty();
        let mut it = ShapeIter::new(*room);
        loop
            invariant
                self.wf(),
                it.wf(),
                it.shape == *room,
                cells == shape_cells(*room),
                done + it.remaining() == cells,
                forall|p: Cell| cells.contains(p) ==> on_map(p),
                self.rooms == id + 1,
                id == old(self).rooms,
                forall|p: Cell|
                    #[trigger] self.tile(p) == if done.contains(p) {
                        room_tile(room.on_boundary(p), id)
                    } else {
                        old(self).tile(p)
                    },
            decreases it.remaining().len(),
        {
            let ghost before = it.remaining();
            match it.next() {
                Some(pos) => {
                    proof {
                        lemma_iter_step(done, before, cells);
                    }
                    let tile = if room.is_boundary(pos) {
                        Tile::wall(id)
                    } else {
                        Tile::floor(id)
                    };
                    self.put(pos, tile);
                    proof {
                        let next = done.push(pos);
                        assert forall|p: Cell| next.contains(p) <==> (done.contains(p) || p
                            == pos) by {
                            lemma_push_contains(done, pos, p);
                        }
                        done = next;
                    }
                },
                None => {
                    assert(done + Seq::<Cell>::empty() == done);
                    return ;
                },
            }
        }
    }

    /// Cuts a block out of the rooms it overlaps: within a room, the rim of
    /// the block becomes wall and the rest bedrock.
    pub fn create_anti_room<T: Shape>(&mut self, room: &T)
        requires
            old(self).wf(),
            forall|p: Cell| shape_cells(*room).contains(p) ==> on_map(p),
        ensures
            final(self).wf(),
            final(self).rooms == old(self).rooms,
            forall|p: Cell|
                #[trigger] final(self).tile(p) == if shape_cells(*room).contains(p) {
                    anti_room_tile(old(self).tile(p), room.on_boundary(p))
                } else {
                    old(self).tile(p)
                },
    {
        let ghost cells = shape_cells(*room);
        let ghost mut done: Seq<Cell> = Seq::empty();
        let mut it = ShapeIter::new(*room);
        loop
            invariant
                self.wf(),
                it.wf(),
                it.shape == *room,
                cells == shape_cells(*room),
                done + it.remaining() == cells,
                forall|p: Cell| cells.contains(p) ==> on_map(p),
                self.rooms == old(self).rooms,
                forall|p: Cell|
                    #[trigger] self.tile(p) == if done.contains(p) {
                        anti_room_tile(old(self).tile(p), room.on_boundary(p))
                    } else {
                        old(self).tile(p)
                    },
            decreases it.remaining().len(),
        {
            let ghost before = it.remaining();
            match it.next() {
                Some(pos) => {
                    proof {
                        lemma_iter_step(done, before, cells);
                    }
                    let before = self.map[index_of(pos)];
                    assert(before == self.tile(pos));
                    if let Some(id) = before.room {
                        let tile = if room.is_boundary(pos) {
                            Tile::wall(id)
                        } else {
                            Tile::bedrock()
                        };
                        self.put(pos, tile);
                    }
                    proof {
                        let next = done.push(pos);
                        assert forall|p: Cell| next.contains(p) <==> (done.contains(p) || p
                            == pos) by {
                            lemma_push_contains(done, pos, p);
                        }
                        done = next;
                    }
                },
                None => {
                    assert(done + Seq::<Cell>::empty() == done);
                    return ;
                },
            }
        }
    }

    /// Stamps a corridor. Where it runs over a room it joins that room, and
    /// a wall remains only where both have one.
    pub fn create_corridor(&mut self, corridor: &Rect)
        requires
            old(self).wf(),
            old(self).rooms < i32::MAX,
            forall|p: Cell| corridor.holds(p) ==> on_map(p),
        ensures
            final(self).wf(),
            final(self).rooms == old(self).rooms + 1,
            forall|p: Cell|
                #[trigger] final(self).tile(p) == if corridor.holds(p) {
                    corridor_tile(old(self).tile(p), corridor.on_boundary(p), old(self).rooms)
                } else {
                    old(self).tile(p)
                },
    {
        let id = self.rooms;
        self.rooms = self.rooms + 1;
        let ghost cells = corridor.cell_seq();
        let ghost mut done: Seq<Cell> = Seq::empty();
        let mut it = (*corridor).into_iter();
        proof {
            assert forall|p: Cell| cells.contains(p) implies on_map(p) by {
                corridor.lemma_cells_covered(p);
            }
        }
        loop
            invariant
                self.wf(),
                it.wf(),
                it.rect == *corridor,
                cells == corridor.cell_seq(),
                done + it.remaining() == cells,
                forall|p: Cell| cells.contains(p) ==> on_map(p),
                self.rooms == id + 1,
                id == old(self).rooms,
                forall|p: Cell|
                    #[trigger] self.tile(p) == if done.contains(p) {
                        corridor_tile(old(self).tile(p), corridor.on_boundary(p), id)
                    } else {
                        old(self).tile(p)
                    },
            decreases it.remaining().len(),
        {
            let ghost before = it.remaining();
            match it.next() {
                Some(pos) => {
                    proof {
                        lemma_iter_step(done, before, cells);
                        lemma_rect_cells_distinct(*corridor, done.len() as int);
                        assert(!done.contains(pos)) by {
                            if done.contains(pos) {
                                let j = choose|j: int| 0 <= j < done.len() && done[j] == pos;
                                assert(cells[j] == (done + before)[j]);
                            }
                        }
                    }
                    let before = self.map[index_of(pos)];
                    assert(before == self.tile(pos));
                    let is_wall = corridor.is_boundary(pos);
                    let tile = if let Some(old_id) = before.room {
                        if before.wall && is_wall {
                            Tile::wall(old_id)
                        } else {
                            Tile::floor(old_id)
                        }
                    } else {
                        if is_wall {
                            Tile::wall(id)
                        } else {
                            Tile::floor(id)
                        }
                    };
                    self.put(pos, tile);
                    proof {
                        let next = done.push(pos);
                        assert forall|p: Cell| next.contains(p) <==> (done.contains(p) || p
                            == pos) by {
                            lemma_push_contains(done, pos, p);
                        }
                        done = next;
                    }
                },
                None => {
                    assert(done + Seq::<Cell>::empty() == done);
                    assert forall|p: Cell| cells.contains(p) <==> corridor.holds(p) by {
                        corridor.lemma_cells_covered(p);
                    }
                    return ;
                },
            }
        }
    }

    /// Draws a wall along a line: every cell of the line that belongs to a
    /// room becomes wall of that room.
    pub fn draw_line(&mut self, line: &Line)
        requires
            old(self).wf(),
            forall|p: Cell| line.cell_seq().contains(p) ==> on_map(p),
        ensures
            final(self).wf(),
            final(self).rooms == old(self).rooms,
            forall|p: Cell|
                #[trigger] final(self).tile(p) == if line.cell_seq().contains(p) {
                    line_tile(old(self).tile(p))
                } else {
                    old(self).tile(p)
                },
    {
        let ghost cells = line.cell_seq();
        let ghost mut done: Seq<Cell> = Seq::empty();
        let mut it = (*line).into_iter();
        loop
            invariant
                self.wf(),
                it.wf(),
                cells == line.cell_seq(),
                done + it.remaining() == cells,
                forall|p: Cell| cells.contains(p) ==> on_map(p),
                self.rooms == old(self).rooms,
                forall|p: Cell|
                    #[trigger] self.tile(p) == if done.contains(p) {
                        line_tile(old(self).tile(p))
                    } else {
                        old(self).tile(p)
                    },
            decreases it.remaining().len(),
        {
            let ghost before = it.remaining();
            match it.next() {
                Some(pos) => {
                    proof {
                        lemma_iter_step(done, before, cells);
                    }
                    let before = self.map[index_of(pos)];
                    assert(before == self.tile(pos));
                    if let Some(id) = before.room {
                        self.put(pos, Tile::wall(id));
                    }
                    proof {
                        let next = done.push(pos);
                        assert forall|p: Cell| next.contains(p) <==> (done.contains(p) || p
                            == pos) by {
                            lemma_push_contains(done, pos, p);
                        }
                        done = next;
                    }
                },
                None => {
                    assert(done + Seq::<Cell>::empty() == done);
                    return ;
                },
            }
        }
    }

    /// Builds the first level: a hall with a pillar and a wall from the
    /// pillar toward the north, two rooms to the west, and two corridors
    /// that join all three.
    pub fn build(&mut self)
        requires
            old(self).wf(),
            old(self).rooms <= i32::MAX - 5,
        ensures
            final(self).wf(),
            final(self).rooms == old(self).rooms + 5,
            forall|p: Cell|
                #[trigger] final(self).tile(p) == layout_tile(old(self).tile(p), p, old(self).rooms),
    {
        let hall = Rect::new(20, 20, 15, 15);
        let pillar = Rect::new(25, 25, 5, 5);
        let wall = Line::new(25, 22, 25, 27);
        let south = Rect::new(10, 25, 5, 5);
        let north = Rect::new(10, 12, 8, 8);
        let down = Rect::new(10, 18, 3, 9);
        let along = Rect::new(13, 27, 9, 3);
        proof {
            assert forall|p: Cell| #[trigger] shape_cells(hall).contains(p) == hall.holds(p) by {
                lemma_shape_cells(hall, p);
            }
            assert forall|p: Cell| #[trigger] shape_cells(pillar).contains(p) == pillar.holds(p) by {
                lemma_shape_cells(pillar, p);
            }
            assert forall|p: Cell| #[trigger] shape_cells(south).contains(p) == south.holds(p) by {
                lemma_shape_cells(south, p);
            }
            assert forall|p: Cell| #[trigger] shape_cells(north).contains(p) == north.holds(p) by {
                lemma_shape_cells(north, p);
            }
            assert forall|p: Cell| #[trigger]
                wall.cell_seq().contains(p) == (p.0 == 25 && 22 <= p.1 <= 27) by {
                lemma_vertical_line_cells(wall, p);
            }
        }
        self.create_room(&hall);
        self.create_anti_room(&pillar);
        self.draw_line(&wall);
        self.create_room(&south);
        self.create_room(&north);
        self.create_corridor(&down);
        self.create_corridor(&along);
    }

    /// The tile of a cell of the map; none off the map.
    pub fn get(&self, p: Cell) -> (t: Option<Tile>)
        requires
            self.wf(),
        ensures
            t == if on_map(p) {
                Some(self.tile(p))
            } else {
                None
            },
    {
        if !is_on_map(p) {
            None
        } else {
            Some(self.map[index_of(p)])
        }
    }

    /// Whether the cell has been discovered; every cell off the map counts
    /// as discovered.
    pub open spec fn discovered(&self, p: Cell) -> bool {
        !on_map(p) || self.tile(p).discovered
    }

    pub fn is_discovered(&self, p: Cell) -> (b: bool)
        requires
            self.wf(),
        ensures
            b == self.discovered(p),
    {
        match self.get(p) {
            Some(t) => t.discovered,
            None => true,
        }
    }

    /// Whether the cell stops movement; every cell off the map does.
    pub open spec fn blocking(&self, p: Cell) -> bool {
        self.tile(p).blocking
    }

    pub fn is_blocking(&self, p: Cell) -> (b: bool)
        requires
            self.wf(),
        ensures
            b == self.blocking(p),
    {
        match self.get(p) {
            Some(t) => t.blocking,
            None => true,
        }
    }

    /// Whether the cell stops sight; every cell off the map does.
    pub open spec fn sight_blocking(&self, p: Cell) -> bool {
        self.tile(p).sight_blocking
    }

    pub fn is_sight_blocking(&self, p: Cell) -> (b: bool)
        requires
            self.wf(),
        ensures
            b == self.sight_blocking(p),
    {
        match self.get(p) {
            Some(t) => t.sight_blocking,
            None => true,
        }
    }

    pub fn is_wall(&self, p: Cell) -> (b: bool)
        requires
            self.wf(),
        ensures
            b == self.tile(p).wall,
    {
        match self.get(p) {
            Some(t) => t.wall,
            None => false,
        }
    }

    /// The double-line piece that joins the neighbours given.
    pub fn create_dbox_character(&self, n: bool, e: bool, s: bool, w: bool) -> (piece: BoxPiece)
        ensures
            piece == box_piece(n, e, s, w),
    {
        self.create_box_character(n, e, s, w)
    }

    /// The single-line piece that joins the neighbours given.
    pub fn create_box_character(&self, n: bool, e: bool, s: bool, w: bool) -> (piece: BoxPiece)
        ensures
            piece == box_piece(n, e, s, w),
    {
        match (n, e, s, w) {
            (true, true, false, false) => BoxPiece::CornerSouthWest,
            (true, false, false, true) => BoxPiece::CornerSouthEast,
            (false, true, true, false) => BoxPiece::CornerNorthWest,
            (false, false, true, true) => BoxPiece::CornerNorthEast,
            (true, false, true, false) | (true, false, false, false) | (
                false,
                false,
                true,
                false,
            ) => BoxPiece::Vertical,
            (false, true, false, true) | (false, false, false, true) | (
                false,
                true,
                false,
                false,
            ) => BoxPiece::Horizontal,
            (true, false, true, true) => BoxPiece::TeeWest,
            (true, true, true, false) => BoxPiece::TeeEast,
            (true, true, false, true) => BoxPiece::TeeNorth,
            (false, true, true, true) => BoxPiece::TeeSouth,
            (true, true, true, true) => BoxPiece::Cross,
            (false, false, false, false) => BoxPiece::Block,
        }
    }
}

/// Taking the first of the cells still to come moves it to those done.
pub proof fn lemma_iter_step(done: Seq<Cell>, before: Seq<Cell>, cells: Seq<Cell>)
    requires
        done + before == cells,
        before.len() > 0,
    ensures
        done.push(before[0]) + before.skip(1) == cells,
        done.len() < cells.len(),
        cells[done.len() as int] == before[0],
        cells.contains(before[0]),
{
    assert(done.push(before[0]) + before.skip(1) =~= done + before);
    assert((done + before)[done.len() as int] == before[0]);
}

/// A sequence with one more element contains what it contained, and that
/// element.
pub proof fn lemma_push_contains(s: Seq<Cell>, c: Cell, p: Cell)
    ensures
        s.push(c).contains(p) <==> (s.contains(p) || p == c),
{
    let t = s.push(c);
    if t.contains(p) {
        let i = choose|i: int| 0 <= i < t.len() && t[i] == p;
        if i < s.len() {
            assert(s[i] == p);
        }
    }
    if s.contains(p) {
        let i = choose|i: int| 0 <= i < s.len() && s[i] == p;
        assert(t[i] == p);
    }
    if p == c {
        assert(t[s.len() as int] == p);
    }
}

/// No cell of a rectangle comes twice.
pub proof fn lemma_rect_cells_distinct(rect: Rect, i: int)
    requires
        0 <= i < rect.cell_seq().len(),
    ensures
        forall|j: int| 0 <= j < i ==> rect.cell_seq()[j] != rect.cell_seq()[i],
{
    let w = rect.width();
    let h = rect.height();
    crate::geometry::lemma_rect_index(w, h, i);
    assert forall|j: int| 0 <= j < i implies rect.cell_seq()[j] != rect.cell_seq()[i] by {
        crate::geometry::lemma_rect_index(w, h, j);
    }
}

} // verus!
