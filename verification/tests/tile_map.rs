use tower_tactics::appearance::Color;
use tower_tactics::geometry::{Line, Rect, Triangle};
use tower_tactics::space::{Viewport, Visibility};
use tower_tactics::tile_map::{BoxPiece, Glyph, Tile, TileMap};

fn all_visible() -> Visibility {
    let mut fov = Visibility::new();
    for x in 0..80 {
        for y in 0..43 {
            fov.set((x, y), true);
        }
    }
    fov
}

#[test]
fn new_map_is_bedrock() {
    let map = TileMap::new();
    assert_eq!(map.rooms, 0);
    assert_eq!(map.get((0, 0)), Some(Tile::bedrock()));
    assert_eq!(map.get((79, 42)), Some(Tile::bedrock()));
    assert_eq!(map.get((80, 0)), None);
    assert_eq!(map.get((0, 43)), None);
    assert_eq!(map.get((-1, 0)), None);
}

#[test]
fn queries_off_the_map_have_safe_answers() {
    let map = TileMap::new();
    for p in [(-1, 0), (0, -1), (80, 10), (10, 43), (i32::MAX, i32::MIN)] {
        assert!(map.is_blocking(p));
        assert!(map.is_sight_blocking(p));
        assert!(map.is_discovered(p));
        assert!(!map.is_wall(p));
    }
    assert!(map.is_blocking((5, 5)));
    assert!(!map.is_discovered((5, 5)));
}

#[test]
fn tile_kinds() {
    assert_eq!(
        Tile::wall(3),
        Tile { blocking: true, sight_blocking: true, discovered: false, wall: true, room: Some(3) }
    );
    assert_eq!(
        Tile::floor(4),
        Tile { blocking: false, sight_blocking: false, discovered: false, wall: false, room: Some(4) }
    );
    assert_eq!(Tile::bedrock(), Tile::create(true, false, None));
    assert_eq!(Tile::wall(1).character(), None);
    let mut wall = Tile::wall(1);
    wall.update(true);
    assert_eq!(wall.character(), Some('#'));
    let mut floor = Tile::floor(1);
    floor.update(true);
    assert_eq!(floor.character(), Some('.'));
    let mut rock = Tile::bedrock();
    rock.update(true);
    assert_eq!(rock.character(), None);
}

#[test]
fn tile_colors() {
    let mut wall = Tile::wall(1);
    assert_eq!(wall.fg_color(true), Color::Black);
    assert_eq!(wall.bg_color(true), Color::DarkestGrey);
    wall.update(true);
    assert_eq!(wall.fg_color(true), Color::LightestGrey);
    assert_eq!(wall.fg_color(false), Color::DarkGreen);
    assert_eq!(wall.bg_color(true), Color::DarkerGrey);
    assert_eq!(wall.bg_color(false), Color::DarkestGrey);
    let mut floor = Tile::floor(1);
    floor.update(true);
    assert_eq!(floor.bg_color(true), Color::DarkestGrey);
}

#[test]
fn discovery_never_reverts() {
    let mut tile = Tile::floor(0);
    tile.update(false);
    assert!(!tile.discovered);
    tile.update(true);
    assert!(tile.discovered);
    tile.update(false);
    assert!(tile.discovered);

    let mut map = TileMap::new();
    let mut fov = Visibility::new();
    fov.set((3, 4), true);
    map.update(&fov);
    assert!(map.is_discovered((3, 4)));
    assert!(!map.is_discovered((4, 3)));
    let dark = Visibility::new();
    map.update(&dark);
    assert!(map.is_discovered((3, 4)));
    let mut other = Visibility::new();
    other.set((4, 3), true);
    map.update(&other);
    assert!(map.is_discovered((3, 4)));
    assert!(map.is_discovered((4, 3)));
}

#[test]
fn room_has_wall_around_floor() {
    let mut map = TileMap::new();
    map.create_room(&Rect::new(2, 3, 4, 3));
    assert_eq!(map.rooms, 1);
    for x in 2..6 {
        for y in 3..6 {
            let expected = if x == 3 || x == 4 { y != 4 } else { true };
            assert_eq!(map.is_wall((x, y)), expected, "{} {}", x, y);
            assert_eq!(map.is_blocking((x, y)), expected);
            assert_eq!(map.get((x, y)).unwrap().room, Some(0));
        }
    }
    assert_eq!(map.get((6, 3)), Some(Tile::bedrock()));
    assert_eq!(map.get((1, 4)), Some(Tile::bedrock()));
    map.create_room(&Rect::new(10, 10, 3, 3));
    assert_eq!(map.get((11, 11)), Some(Tile::floor(1)));
}

#[test]
fn triangle_room_is_floor() {
    let mut map = TileMap::new();
    map.create_room(&Triangle::new((0, 0), (4, 0), (0, 4)));
    assert_eq!(map.get((1, 1)), Some(Tile::floor(0)));
    assert_eq!(map.get((0, 3)), Some(Tile::floor(0)));
    assert_eq!(map.get((3, 3)), Some(Tile::bedrock()));
}

#[test]
fn anti_room_cuts_a_block_out_of_a_room() {
    let mut map = TileMap::new();
    map.create_room(&Rect::new(20, 20, 15, 15));
    map.create_anti_room(&Rect::new(25, 25, 5, 5));
    assert_eq!(map.get((25, 25)), Some(Tile::wall(0)));
    assert_eq!(map.get((29, 27)), Some(Tile::wall(0)));
    assert_eq!(map.get((27, 27)), Some(Tile::bedrock()));
    assert_eq!(map.get((24, 27)), Some(Tile::floor(0)));
    assert_eq!(map.rooms, 1);
    let mut empty = TileMap::new();
    empty.create_anti_room(&Rect::new(25, 25, 5, 5));
    assert_eq!(empty.get((25, 25)), Some(Tile::bedrock()));
}

#[test]
fn corridor_joins_the_room_it_runs_over() {
    let mut map = TileMap::new();
    map.create_room(&Rect::new(10, 25, 5, 5));
    map.create_corridor(&Rect::new(13, 27, 9, 3));
    assert_eq!(map.rooms, 2);
    // Where both have a wall, the wall stays, under the number of the room.
    assert_eq!(map.get((14, 27)), Some(Tile::wall(0)));
    // The wall of the room in the middle of the corridor opens.
    assert_eq!(map.get((14, 28)), Some(Tile::floor(0)));
    // Floor of the room under the wall of the corridor stays floor.
    assert_eq!(map.get((13, 27)), Some(Tile::floor(0)));
    // Outside the room the corridor is a room of its own.
    assert_eq!(map.get((15, 27)), Some(Tile::wall(1)));
    assert_eq!(map.get((15, 28)), Some(Tile::floor(1)));
    assert_eq!(map.get((21, 28)), Some(Tile::wall(1)));
}

#[test]
fn line_walls_only_inside_rooms() {
    let mut map = TileMap::new();
    map.create_room(&Rect::new(20, 20, 15, 15));
    map.draw_line(&Line::new(25, 18, 25, 22));
    assert_eq!(map.get((25, 18)), Some(Tile::bedrock()));
    assert_eq!(map.get((25, 21)), Some(Tile::wall(0)));
    assert_eq!(map.get((25, 22)), Some(Tile::wall(0)));
    assert_eq!(map.get((25, 23)), Some(Tile::floor(0)));
}

#[test]
fn hall_with_pillar_and_wall() {
    let mut map = TileMap::new();
    let hall = Rect::new(20, 20, 15, 15);
    let pillar = Rect::new(25, 25, 5, 5);
    map.create_room(&hall);
    map.create_anti_room(&pillar);
    map.draw_line(&Line::new(25, 22, 25, 27));
    for x in 20..35 {
        for y in 20..35 {
            if x == 20 || x == 34 || y == 20 || y == 34 {
                assert!(map.is_wall((x, y)), "{} {}", x, y);
            }
        }
    }
    for y in 22..=27 {
        assert!(map.is_wall((25, y)));
    }
    assert!(!map.is_blocking((25, 21)));
    assert!(map.is_blocking((27, 27)));
    assert!(!map.is_wall((27, 27)));
}

#[test]
fn built_level() {
    let mut map = TileMap::new();
    map.build();
    assert_eq!(map.rooms, 5);
    assert_eq!(map.get((27, 22)), Some(Tile::floor(0)));
    assert_eq!(map.get((12, 27)), Some(Tile::floor(1)));
    assert_eq!(map.get((13, 15)), Some(Tile::floor(2)));
    // The corridor to the north opens the walls of both rooms.
    assert_eq!(map.get((11, 19)), Some(Tile::floor(2)));
    assert_eq!(map.get((11, 25)), Some(Tile::floor(1)));
    assert_eq!(map.get((11, 22)), Some(Tile::floor(3)));
    assert_eq!(map.get((10, 22)), Some(Tile::wall(3)));
    // The corridor to the east opens the wall of the hall.
    assert_eq!(map.get((20, 28)), Some(Tile::floor(0)));
    assert_eq!(map.get((20, 27)), Some(Tile::wall(0)));
    assert_eq!(map.get((17, 28)), Some(Tile::floor(4)));
    assert_eq!(map.get((0, 0)), Some(Tile::bedrock()));
}

#[test]
fn drawing_shows_discovered_tiles_only() {
    let mut map = TileMap::new();
    map.create_room(&Rect::new(2, 2, 3, 3));
    let viewport = Viewport::new(1, 1, 10, 10);
    let dark = Visibility::new();
    assert_eq!(map.draw(&dark, &viewport), vec![]);
    let mut fov = Visibility::new();
    fov.set((2, 2), true);
    fov.set((3, 3), true);
    map.update(&fov);
    assert_eq!(
        map.draw(&fov, &viewport),
        vec![
            Glyph { pos: (1, 1), bg: Color::DarkerGrey, fg: Color::LightestGrey, character: '#' },
            Glyph { pos: (2, 2), bg: Color::DarkestGrey, fg: Color::LightestGrey, character: '.' },
        ]
    );
    assert_eq!(
        map.draw(&dark, &viewport),
        vec![
            Glyph { pos: (1, 1), bg: Color::DarkestGrey, fg: Color::DarkGreen, character: '#' },
            Glyph { pos: (2, 2), bg: Color::DarkestGrey, fg: Color::DarkGreen, character: '.' },
        ]
    );
    let far = Viewport::new(20, 20, 5, 5);
    assert_eq!(map.draw(&all_visible(), &far), vec![]);
}

#[test]
fn box_pieces() {
    let map = TileMap::new();
    assert_eq!(map.create_box_character(true, true, false, false), BoxPiece::CornerSouthWest);
    assert_eq!(map.create_box_character(true, false, false, true), BoxPiece::CornerSouthEast);
    assert_eq!(map.create_box_character(false, true, true, false), BoxPiece::CornerNorthWest);
    assert_eq!(map.create_box_character(false, false, true, true), BoxPiece::CornerNorthEast);
    assert_eq!(map.create_box_character(true, false, true, false), BoxPiece::Vertical);
    assert_eq!(map.create_box_character(false, false, true, false), BoxPiece::Vertical);
    assert_eq!(map.create_box_character(false, true, false, true), BoxPiece::Horizontal);
    assert_eq!(map.create_box_character(false, true, false, false), BoxPiece::Horizontal);
    assert_eq!(map.create_box_character(true, false, true, true), BoxPiece::TeeWest);
    assert_eq!(map.create_box_character(true, true, true, false), BoxPiece::TeeEast);
    assert_eq!(map.create_box_character(true, true, false, true), BoxPiece::TeeNorth);
    assert_eq!(map.create_box_character(false, true, true, true), BoxPiece::TeeSouth);
    assert_eq!(map.create_box_character(true, true, true, true), BoxPiece::Cross);
    assert_eq!(map.create_box_character(false, false, false, false), BoxPiece::Block);
    assert_eq!(map.create_dbox_character(true, true, true, true), BoxPiece::Cross);
    assert_eq!(map.create_dbox_character(false, false, false, true), BoxPiece::Horizontal);
}

#[test]
fn viewport_transforms() {
    let mut v = Viewport::new(15, 15, 80, 40);
    assert_eq!(v.transform((20, 30)), (5, 15));
    assert_eq!(v.inv_transform((5, 15)), (20, 30));
    assert!(v.visible((15, 15)));
    assert!(v.visible((94, 54)));
    assert!(!v.visible((95, 54)));
    assert!(!v.visible((14, 15)));
    v.center_at((40, 20));
    assert_eq!(v.r, Rect::new(0, 0, 80, 40));
    let small = Viewport::new(0, 0, 2, 2);
    let mut it = small.into_iter();
    assert_eq!(it.next(), Some((0, 0)));
    assert_eq!(it.next(), Some((1, 0)));
    assert_eq!(it.next(), Some((0, 1)));
    assert_eq!(it.next(), Some((1, 1)));
    assert_eq!(it.next(), None);
}

#[test]
fn visibility_grid() {
    let mut fov = Visibility::new();
    assert!(!fov.is_in_fov((0, 0)));
    fov.set((79, 42), true);
    assert!(fov.is_in_fov((79, 42)));
    assert!(!fov.is_in_fov((78, 42)));
    assert!(!fov.is_in_fov((80, 42)));
    assert!(!fov.is_in_fov((-1, -1)));
    fov.set((79, 42), false);
    assert!(!fov.is_in_fov((79, 42)));
}
