use tower_tactics::entity_map::{Entity, EntityMap, Entry};
use tower_tactics::geometry::{Line, Rect};
use tower_tactics::maps::{is_within_reach, MapKind, Maps};
use tower_tactics::pathfinder::{find_route, Passability};
use tower_tactics::space::Visibility;

fn e(index: u32) -> Entity {
    Entity { index, generation: 1 }
}

fn discover_all(maps: &mut Maps) {
    let mut fov = Visibility::new();
    for x in 0..80 {
        for y in 0..43 {
            fov.set((x, y), true);
        }
    }
    maps.update(&fov);
}

fn hall() -> Maps {
    let mut maps = Maps::new();
    maps.tiles.create_room(&Rect::new(20, 20, 15, 15));
    maps.tiles.create_anti_room(&Rect::new(25, 25, 5, 5));
    maps.tiles.draw_line(&Line::new(25, 22, 25, 27));
    discover_all(&mut maps);
    maps
}

fn adjacent(a: (i32, i32), b: (i32, i32)) -> bool {
    (a.0 - b.0).abs() + (a.1 - b.1).abs() == 1
}

#[test]
fn index_push_pop_get() {
    let mut index = EntityMap::new();
    assert!(index.is_empty((3, 3)));
    index.push(&e(1), (3, 3));
    index.push_entry(Entry(e(2), false, true), (3, 3));
    assert!(!index.is_empty((3, 3)));
    assert_eq!(*index.get((3, 3)), vec![Entry(e(1), true, false), Entry(e(2), false, true)]);
    assert!(index.get((3, 4)).is_empty());
    assert_eq!(index.pop((3, 3)), Some(Entry(e(2), false, true)));
    assert_eq!(index.pop((3, 3)), Some(Entry(e(1), true, false)));
    assert_eq!(index.pop((3, 3)), None);
    assert!(index.is_empty((-5, 100)));
}

#[test]
fn index_remove_puts_the_last_entry_in_place() {
    let mut index = EntityMap::new();
    for i in 1..=4 {
        index.push(&e(i), (0, 0));
    }
    assert_eq!(index.remove(&e(2), (0, 0)), Some(Entry(e(2), true, false)));
    assert_eq!(
        *index.get((0, 0)),
        vec![Entry(e(1), true, false), Entry(e(4), true, false), Entry(e(3), true, false)]
    );
    assert_eq!(index.remove(&e(2), (0, 0)), None);
    assert_eq!(index.remove(&e(3), (0, 0)), Some(Entry(e(3), true, false)));
    assert_eq!(*index.get((0, 0)), vec![Entry(e(1), true, false), Entry(e(4), true, false)]);
    assert_eq!(index.remove(&e(1), (1, 0)), None);
}

#[test]
fn index_flags_and_clear() {
    let mut index = EntityMap::new();
    index.push(&e(1), (5, 6));
    index.push(&e(2), (5, 6));
    index.set_blocking(&e(2), (5, 6), false);
    index.set_sight_blocking(&e(1), (5, 6), true);
    index.set_blocking(&e(9), (5, 6), false);
    assert_eq!(*index.get((5, 6)), vec![Entry(e(1), true, true), Entry(e(2), false, false)]);
    index.clear();
    assert!(index.is_empty((5, 6)));
}

#[test]
fn move_entity_takes_the_entry_along() {
    let mut maps = Maps::new();
    maps.push(MapKind::Character, &e(1), (2, 2));
    maps.push(MapKind::Character, &e(2), (2, 2));
    maps.push(MapKind::Character, &e(3), (3, 2));
    maps.set_sight_blocking(MapKind::Character, &e(1), (2, 2), true);
    maps.push(MapKind::Item, &e(1), (2, 2));
    maps.move_entity(MapKind::Character, &e(1), (2, 2), (3, 2));
    assert_eq!(*maps.characters.get((2, 2)), vec![Entry(e(2), true, false)]);
    assert_eq!(
        *maps.characters.get((3, 2)),
        vec![Entry(e(3), true, false), Entry(e(1), true, true)]
    );
    assert_eq!(*maps.items.get((2, 2)), vec![Entry(e(1), true, false)]);
    // Nothing moves from a cell to itself, or where the entity is not.
    maps.move_entity(MapKind::Character, &e(1), (3, 2), (3, 2));
    maps.move_entity(MapKind::Character, &e(7), (3, 2), (4, 2));
    assert_eq!(
        *maps.characters.get((3, 2)),
        vec![Entry(e(3), true, false), Entry(e(1), true, true)]
    );
    assert!(maps.characters.is_empty((4, 2)));
    maps.move_entity(MapKind::Item, &e(1), (2, 2), (9, 9));
    assert!(maps.items.is_empty((2, 2)));
    assert_eq!(*maps.items.get((9, 9)), vec![Entry(e(1), true, false)]);
}

#[test]
fn each_kind_has_its_own_index() {
    let mut maps = Maps::new();
    maps.push(MapKind::Item, &e(5), (1, 1));
    maps.push(MapKind::Character, &e(6), (1, 1));
    assert_eq!(maps.pop(MapKind::Character, (1, 1)), Some(Entry(e(6), true, false)));
    assert_eq!(maps.pop(MapKind::Character, (1, 1)), None);
    assert_eq!(maps.remove(MapKind::Item, &e(5), (1, 1)), Some(Entry(e(5), true, false)));
    maps.push(MapKind::Item, &e(5), (1, 1));
    maps.push(MapKind::Character, &e(6), (1, 1));
    maps.set_blocking(MapKind::Item, &e(5), (1, 1), false);
    maps.clear_all();
    assert!(maps.items.is_empty((1, 1)));
    assert!(maps.characters.is_empty((1, 1)));
}

#[test]
fn screen_to_map_takes_the_panel_off() {
    let maps = Maps::new();
    assert_eq!(maps.screen_to_map((0, 7)), Some((0, 0)));
    assert_eq!(maps.screen_to_map((79, 49)), Some((79, 42)));
    assert_eq!(maps.screen_to_map((0, 6)), None);
    assert_eq!(maps.screen_to_map((80, 7)), None);
    assert_eq!(maps.screen_to_map((5, 50)), None);
    assert_eq!(maps.screen_to_map((5, i32::MIN)), None);
}

#[test]
fn blocking_queries() {
    let mut maps = Maps::new();
    maps.tiles.create_room(&Rect::new(0, 0, 5, 5));
    let me = e(1);
    // Undiscovered floor cannot be planned, and stops projectiles.
    assert!(maps.is_not_planable(&me, (2, 2)));
    assert!(maps.is_projectile_blocking((2, 2)));
    discover_all(&mut maps);
    assert!(!maps.is_not_planable(&me, (2, 2)));
    assert!(!maps.is_projectile_blocking((2, 2)));
    assert!(!maps.is_blocking((2, 2)));
    assert!(maps.is_blocking((0, 0)));
    assert!(maps.is_not_planable(&me, (0, 0)));
    assert!(maps.is_projectile_blocking((0, 0)));
    assert!(maps.is_sight_blocking((0, 0)));
    assert!(!maps.is_sight_blocking((2, 2)));
    // The entity itself does not stand in its own way; another does.
    maps.push(MapKind::Character, &me, (2, 2));
    assert!(!maps.is_not_planable(&me, (2, 2)));
    assert!(maps.is_not_planable(&e(2), (2, 2)));
    assert!(!maps.is_projectile_blocking((2, 2)));
    maps.set_blocking(MapKind::Character, &me, (2, 2), false);
    assert!(!maps.is_not_planable(&e(2), (2, 2)));
    maps.set_sight_blocking(MapKind::Character, &me, (2, 2), true);
    assert!(maps.is_sight_blocking((2, 2)));
    // Items never stand in the way.
    maps.push(MapKind::Item, &e(3), (3, 3));
    assert!(!maps.is_not_planable(&me, (3, 3)));
    // Off the map everything is blocked.
    assert!(maps.is_not_planable(&me, (-1, 2)));
    assert!(maps.is_projectile_blocking((80, 2)));
    assert!(maps.is_sight_blocking((2, 43)));
}

#[test]
fn path_to_the_same_cell_is_empty() {
    let maps = hall();
    assert_eq!(maps.find_path(&e(1), (22, 22), (22, 22)), vec![]);
    assert_eq!(maps.find_path(&e(1), (0, 0), (0, 0)), vec![]);
}

#[test]
fn path_is_a_shortest_walk() {
    let maps = hall();
    let path = maps.find_path(&e(1), (21, 21), (24, 21));
    assert_eq!(path, vec![(22, 21), (23, 21), (24, 21)]);
    // Around the wall that runs north from the pillar.
    let from = (24, 24);
    let to = (26, 24);
    let path = maps.find_path(&e(1), from, to);
    assert_eq!(path.len(), 8);
    assert_eq!(*path.last().unwrap(), to);
    let mut prev = from;
    for p in &path {
        assert!(adjacent(prev, *p));
        assert!(!maps.is_not_planable(&e(1), *p));
        prev = *p;
    }
}

#[test]
fn hall_is_connected_around_the_pillar() {
    let maps = hall();
    let floor = [(21, 21), (33, 21), (21, 33), (33, 33), (24, 27), (30, 27), (27, 30), (26, 23)];
    for from in floor {
        for to in floor {
            if from != to {
                assert!(!maps.find_path(&e(1), from, to).is_empty(), "{:?} {:?}", from, to);
            }
        }
    }
}

#[test]
fn walled_in_cell_cannot_be_reached() {
    let maps = hall();
    // The inside of the pillar is bedrock behind walls.
    assert_eq!(maps.find_path(&e(1), (21, 21), (27, 27)), vec![]);
    // A wall cannot be walked onto either.
    assert_eq!(maps.find_path(&e(1), (21, 21), (25, 25)), vec![]);
    // Nor is there a way out of the hall.
    assert_eq!(maps.find_path(&e(1), (21, 21), (10, 10)), vec![]);
    assert_eq!(maps.find_path(&e(1), (21, 21), (-3, 500)), vec![]);

    // A floor cell enclosed by characters on all four sides.
    let mut maps = hall();
    for (i, p) in [(22, 21), (22, 23), (21, 22), (23, 22)].iter().enumerate() {
        maps.push(MapKind::Character, &e(10 + i as u32), *p);
    }
    assert_eq!(maps.find_path(&e(1), (30, 30), (22, 22)), vec![]);
    assert_eq!(maps.find_path(&e(1), (22, 22), (30, 30)), vec![]);
    // One of them steps aside.
    maps.set_blocking(MapKind::Character, &e(10), (22, 21), false);
    assert!(!maps.find_path(&e(1), (30, 30), (22, 22)).is_empty());
}

#[test]
fn path_goes_around_other_characters_but_not_around_itself() {
    let mut maps = hall();
    maps.push(MapKind::Character, &e(2), (22, 21));
    let path = maps.find_path(&e(1), (21, 21), (23, 21));
    assert_eq!(path.len(), 4);
    assert!(!path.contains(&(22, 21)));
    let own = maps.find_path(&e(2), (21, 21), (23, 21));
    assert_eq!(own, vec![(22, 21), (23, 21)]);
}

#[test]
fn path_on_the_built_level_leads_through_the_corridors() {
    let mut maps = Maps::new();
    maps.build();
    discover_all(&mut maps);
    let path = maps.find_path(&e(1), (12, 14), (27, 22));
    assert!(!path.is_empty());
    assert_eq!(*path.last().unwrap(), (27, 22));
    assert!(path.contains(&(11, 22)));
    assert!(path.contains(&(17, 28)));
    // Undiscovered, the same level cannot be walked.
    let mut dark = Maps::new();
    dark.build();
    assert_eq!(dark.find_path(&e(1), (12, 14), (27, 22)), vec![]);
}

#[test]
fn route_on_a_bare_grid() {
    let mut grid = Passability::new();
    assert_eq!(find_route(&grid, (0, 0), (1, 0)), vec![]);
    for x in 0..5 {
        grid.set((x, 0), true);
    }
    grid.set((4, 1), true);
    assert!(grid.is_passable((4, 1)));
    assert!(!grid.is_passable((3, 1)));
    assert!(!grid.is_passable((5, 43)));
    assert_eq!(find_route(&grid, (0, 0), (4, 1)), vec![(1, 0), (2, 0), (3, 0), (4, 0), (4, 1)]);
    // The start need not be on the map.
    assert_eq!(find_route(&grid, (-1, 0), (1, 0)), vec![(0, 0), (1, 0)]);
    // No step goes diagonally.
    grid.set((4, 0), false);
    assert_eq!(find_route(&grid, (0, 0), (4, 1)), vec![]);
}

#[test]
fn ray_stops_at_walls_and_at_its_range() {
    let maps = hall();
    assert_eq!(
        maps.draw_ray((21, 21), (23, 21), 10),
        vec![(22, 21), (23, 21), (24, 21), (25, 21), (26, 21), (27, 21), (28, 21), (29, 21), (30, 21), (31, 21)]
    );
    assert_eq!(maps.draw_ray((21, 21), (23, 21), 2), vec![(22, 21), (23, 21)]);
    assert_eq!(maps.draw_ray((21, 21), (23, 21), 0), vec![]);
    assert_eq!(maps.draw_ray((21, 21), (23, 21), -1), vec![]);
    assert_eq!(maps.draw_ray((21, 23), (30, 23), 50), vec![(22, 23), (23, 23), (24, 23)]);
    assert_eq!(maps.draw_ray((30, 21), (32, 21), 50), vec![(31, 21), (32, 21), (33, 21)]);
    assert_eq!(maps.draw_ray((21, 21), (21, 21), 5), vec![]);
    assert_eq!(maps.draw_ray((21, 21), (23, 23), 2), vec![(22, 22), (23, 23)]);
    assert_eq!(maps.draw_ray((21, 21), (23, 23), 1), vec![(22, 22)]);
}

#[test]
fn reach_is_the_distance_rounded_down() {
    assert!(is_within_reach((0, 0), (3, 4), 5));
    assert!(!is_within_reach((0, 0), (3, 4), 4));
    assert!(is_within_reach((0, 0), (1, 1), 1));
    assert!(is_within_reach((0, 0), (0, 0), 0));
    assert!(!is_within_reach((0, 0), (0, 0), -1));
    assert!(is_within_reach((0, 0), (i32::MAX, 0), i32::MAX));
    assert!(!is_within_reach((i32::MIN, i32::MIN), (i32::MAX, i32::MAX), i32::MAX));
    assert!(!is_within_reach((i32::MIN, 0), (i32::MAX, 0), i32::MAX));
}

#[test]
fn characters_along_a_ray_nearest_first() {
    let mut maps = hall();
    maps.push(MapKind::Character, &e(3), (24, 21));
    maps.push(MapKind::Character, &e(2), (22, 21));
    maps.push(MapKind::Character, &e(4), (22, 21));
    maps.push(MapKind::Character, &e(9), (21, 21));
    maps.push(MapKind::Item, &e(8), (23, 21));
    assert_eq!(maps.collect_characters_with_ray((21, 21), (23, 21), 10), vec![e(2), e(4), e(3)]);
    assert_eq!(maps.collect_characters_with_ray((21, 21), (23, 21), 2), vec![e(2), e(4)]);
    assert_eq!(maps.collect_characters_with_ray((21, 21), (21, 30), 10), vec![]);
}

#[test]
fn occupants_of_a_shape() {
    let mut maps = Maps::new();
    maps.push(MapKind::Character, &e(1), (1, 1));
    maps.push(MapKind::Character, &e(2), (0, 0));
    maps.push(MapKind::Character, &e(3), (2, 1));
    maps.push(MapKind::Character, &e(4), (3, 3));
    maps.push(MapKind::Item, &e(5), (1, 0));
    maps.push(MapKind::Item, &e(6), (1, 0));
    assert_eq!(maps.collect_characters_with_shape(Rect::new(0, 0, 3, 3)), vec![e(2), e(1), e(3)]);
    assert_eq!(maps.collect_items_with_shape(Rect::new(0, 0, 3, 3)), vec![e(5), e(6)]);
    // Cells off the map hold nobody.
    assert_eq!(maps.collect_characters_with_shape(Rect::new(-1, -1, 3, 3)), vec![e(2), e(1)]);
}

fn places(maps: &Maps, entity: Entity) -> usize {
    let mut n = 0;
    for x in 0..80 {
        for y in 0..43 {
            n += maps.characters.get((x, y)).iter().filter(|entry| entry.0 == entity).count();
        }
    }
    n
}

#[test]
fn entity_is_in_one_place_at_a_time() {
    let mut maps = hall();
    let (a, b) = (e(1), e(2));
    maps.push(MapKind::Character, &a, (21, 21));
    maps.push(MapKind::Character, &b, (21, 21));
    assert_eq!(places(&maps, a), 1);
    for to in [(22, 21), (22, 22), (21, 22), (21, 21), (21, 21), (30, 30)] {
        let from = (0..80)
            .flat_map(|x| (0..43).map(move |y| (x, y)))
            .find(|p| maps.characters.get(*p).iter().any(|entry| entry.0 == a))
            .unwrap();
        maps.move_entity(MapKind::Character, &a, from, to);
        assert_eq!(places(&maps, a), 1);
        assert_eq!(places(&maps, b), 1);
        assert!(maps.characters.get(to).iter().any(|entry| entry.0 == a));
    }
    maps.set_blocking(MapKind::Character, &a, (30, 30), false);
    assert_eq!(places(&maps, a), 1);
    assert_eq!(maps.remove(MapKind::Character, &a, (30, 30)), Some(Entry(a, false, false)));
    assert_eq!(places(&maps, a), 0);
    assert_eq!(places(&maps, b), 1);
}
