use tower_tactics::appearance::{Color, Renderable};
use tower_tactics::common::{
    CharacterStats, Description, InTurn, InTurnState, ItemStats, MoveToPosition,
};
use tower_tactics::entity_map::{Entity, Entry};
use tower_tactics::event_log::{EventLog, LogEvent};
use tower_tactics::game_state::GameState;
use tower_tactics::geometry::Rect;
use tower_tactics::interaction::{Interactable, InteractableInstance};
use tower_tactics::interaction_system::InteractionSystem;
use tower_tactics::inventory::Inventory;
use tower_tactics::item::{Item, ItemInstance, Rarity, Type};
use tower_tactics::maps::{MapKind, Maps};
use tower_tactics::move_to_controller::{Motion, MoveOutcome, MoveResult, MoveToController};
use tower_tactics::npc::{Npc, NpcInstance};
use tower_tactics::player::Equipment;
use tower_tactics::player_controller::{get_delta, DirectionKeys, PlayerController};
use tower_tactics::space::{Viewport, Visibility};
use tower_tactics::stats_updater::StatsUpdater;
use tower_tactics::text::{decimal, digits};
use tower_tactics::tile_map::Tile;
use tower_tactics::tower::{Level, Placement, SpawnKind, Tower};
use tower_tactics::ui_updater::{distance_color, Highlight, UiUpdater};

fn e(index: u32) -> Entity {
    Entity { index, generation: 0 }
}

fn room() -> Maps {
    let mut maps = Maps::new();
    maps.tiles.create_room(&Rect::new(0, 0, 20, 20));
    let mut fov = Visibility::new();
    for x in 0..80 {
        for y in 0..43 {
            fov.set((x, y), true);
        }
    }
    maps.update(&fov);
    maps
}

#[test]
fn step_moves_the_actor_in_the_index() {
    let mut maps = room();
    maps.push(MapKind::Character, &e(1), (2, 2));
    let mut movement = MoveToPosition { path: vec![(3, 2), (4, 2)] };
    let r = MoveToController::run(
        &mut maps,
        &e(1),
        (2, 2),
        &mut movement,
        Motion::Step { cell: (3, 2), arrives: false },
    );
    assert_eq!(r, MoveResult { outcome: MoveOutcome::Moved((3, 2)), finished: false });
    assert_eq!(movement.path, vec![(3, 2), (4, 2)]);
    assert!(maps.characters.is_empty((2, 2)));
    assert_eq!(*maps.characters.get((3, 2)), vec![Entry(e(1), true, false)]);
    // A step within the cell changes nothing in the index.
    let r = MoveToController::run(
        &mut maps,
        &e(1),
        (3, 2),
        &mut movement,
        Motion::Step { cell: (3, 2), arrives: true },
    );
    assert_eq!(r, MoveResult { outcome: MoveOutcome::Moved((3, 2)), finished: false });
    assert_eq!(movement.path, vec![(4, 2)]);
    assert_eq!(*maps.characters.get((3, 2)), vec![Entry(e(1), true, false)]);
}

#[test]
fn reaching_the_last_cell_finishes_the_path() {
    let mut maps = room();
    maps.push(MapKind::Character, &e(1), (4, 2));
    let mut movement = MoveToPosition { path: vec![(4, 2)] };
    let r = MoveToController::run(&mut maps, &e(1), (4, 2), &mut movement, Motion::AtTarget);
    assert_eq!(r, MoveResult { outcome: MoveOutcome::Reached, finished: true });
    assert!(movement.path.is_empty());
    let r = MoveToController::run(&mut maps, &e(1), (4, 2), &mut movement, Motion::AtTarget);
    assert_eq!(r, MoveResult { outcome: MoveOutcome::Idle, finished: true });
    assert_eq!(*maps.characters.get((4, 2)), vec![Entry(e(1), true, false)]);
}

#[test]
fn blocked_step_gives_the_path_up() {
    let mut maps = room();
    maps.push(MapKind::Character, &e(1), (2, 2));
    maps.push(MapKind::Character, &e(2), (3, 2));
    let mut movement = MoveToPosition { path: vec![(3, 2), (4, 2), (5, 2)] };
    let r = MoveToController::run(
        &mut maps,
        &e(1),
        (2, 2),
        &mut movement,
        Motion::Step { cell: (3, 2), arrives: true },
    );
    assert_eq!(r, MoveResult { outcome: MoveOutcome::Blocked, finished: true });
    assert!(movement.path.is_empty());
    assert_eq!(*maps.characters.get((2, 2)), vec![Entry(e(1), true, false)]);
    assert_eq!(*maps.characters.get((3, 2)), vec![Entry(e(2), true, false)]);
    // A wall blocks as well.
    let mut movement = MoveToPosition { path: vec![(0, 2)] };
    let r = MoveToController::run(
        &mut maps,
        &e(1),
        (2, 2),
        &mut movement,
        Motion::Step { cell: (0, 2), arrives: false },
    );
    assert_eq!(r.outcome, MoveOutcome::Blocked);
}

#[test]
fn direction_keys_add_up() {
    let none = DirectionKeys { left: false, down: false, up: false, right: false };
    assert_eq!(get_delta(&none), (0, 0));
    assert_eq!(get_delta(&DirectionKeys { left: true, ..none }), (-1, 0));
    assert_eq!(get_delta(&DirectionKeys { down: true, ..none }), (0, 1));
    assert_eq!(get_delta(&DirectionKeys { up: true, right: true, ..none }), (1, -1));
    assert_eq!(get_delta(&DirectionKeys { left: true, down: true, up: true, right: true }), (0, 0));
}

#[test]
fn mouse_points_at_a_cell_in_the_viewport() {
    let maps = Maps::new();
    let viewport = Viewport::new(15, 15, 80, 40);
    assert_eq!(PlayerController::target_cell(&maps, &viewport, (0, 0)), Some((15, 8)));
    assert_eq!(PlayerController::target_cell(&maps, &viewport, (64, 34)), Some((79, 42)));
    assert_eq!(PlayerController::target_cell(&maps, &viewport, (65, 34)), None);
    assert_eq!(PlayerController::target_cell(&maps, &viewport, (64, 35)), None);
    assert_eq!(PlayerController::target_cell(&maps, &viewport, (-1, 0)), None);
    assert_eq!(PlayerController::target_cell(&maps, &viewport, (i32::MAX, i32::MAX)), None);
    let origin = Viewport::new(0, 0, 80, 40);
    assert_eq!(PlayerController::target_cell(&maps, &origin, (3, 6)), None);
    assert_eq!(PlayerController::target_cell(&maps, &origin, (3, 7)), Some((3, 0)));
}

#[test]
fn short_walk_costs_one_point() {
    let maps = room();
    let mut turn = InTurn::default();
    let path = PlayerController::plan_walk(&maps, &e(1), (2, 2), (5, 2), &mut turn).unwrap();
    assert_eq!(path, vec![(3, 2), (4, 2), (5, 2)]);
    assert_eq!(turn, InTurn { state: InTurnState::Walking, has_walked: true, action_points: 1 });
}

#[test]
fn long_walk_costs_two_points_once_a_turn() {
    let maps = room();
    let mut turn = InTurn::default();
    let path = PlayerController::plan_walk(&maps, &e(1), (2, 2), (9, 2), &mut turn).unwrap();
    assert_eq!(path.len(), 7);
    assert_eq!(turn, InTurn { state: InTurnState::Walking, has_walked: true, action_points: 0 });
    let mut walked = InTurn { state: InTurnState::Idle, has_walked: true, action_points: 1 };
    assert_eq!(PlayerController::plan_walk(&maps, &e(1), (2, 2), (9, 2), &mut walked), None);
    assert_eq!(walked, InTurn { state: InTurnState::Idle, has_walked: true, action_points: 1 });
    let mut fresh = InTurn::default();
    assert_eq!(PlayerController::plan_walk(&maps, &e(1), (2, 2), (12, 2), &mut fresh), None);
    assert_eq!(fresh, InTurn::default());
}

#[test]
fn no_walk_where_no_path_leads() {
    let maps = room();
    let mut turn = InTurn::default();
    assert_eq!(PlayerController::plan_walk(&maps, &e(1), (2, 2), (2, 2), &mut turn), None);
    assert_eq!(PlayerController::plan_walk(&maps, &e(1), (2, 2), (30, 30), &mut turn), None);
    assert_eq!(turn, InTurn::default());
}

#[test]
fn attack_hits_the_first_character_on_the_way() {
    let mut maps = room();
    maps.push(MapKind::Character, &e(2), (5, 2));
    maps.push(MapKind::Character, &e(3), (4, 2));
    let mut turn = InTurn::default();
    turn.walk(1);
    turn.action_done();
    assert_eq!(PlayerController::plan_attack(&maps, (2, 2), (3, 2), 5, &mut turn), Some(e(3)));
    assert_eq!(turn, InTurn { state: InTurnState::Idle, has_walked: true, action_points: 0 });
    assert!(turn.is_done());
    let mut other = InTurn::default();
    assert_eq!(PlayerController::plan_attack(&maps, (2, 2), (3, 2), 1, &mut other), None);
    assert_eq!(other, InTurn::default());
}

#[test]
fn strike_takes_health_and_is_logged() {
    let mut stats = CharacterStats { health: 100, max_health: 100 };
    let mut log = EventLog::default();
    let weapon = ItemStats { damage: 80, range: 10 };
    PlayerController::strike(&e(1), &e(2), &weapon, &mut stats, &mut log);
    assert_eq!(stats, CharacterStats { health: 20, max_health: 100 });
    assert!(!stats.is_dead());
    PlayerController::strike(&e(1), &e(2), &weapon, &mut stats, &mut log);
    assert_eq!(stats.health, -60);
    assert!(stats.is_dead());
    assert_eq!(
        log.logs,
        vec![LogEvent::DidDamage(e(1), e(2), 80), LogEvent::DidDamage(e(1), e(2), 80)]
    );
    stats.reset();
    assert_eq!(stats.health, 100);
    assert_eq!(stats.apply_damage(&ItemStats { damage: 20, range: 1 }), 20);
}

#[test]
fn interaction_finds_the_first_fixture_around() {
    let mut maps = room();
    maps.push(MapKind::Character, &e(1), (5, 5));
    maps.push(MapKind::Character, &e(7), (6, 6));
    maps.push(MapKind::Character, &e(8), (4, 5));
    maps.push(MapKind::Character, &e(9), (9, 9));
    assert_eq!(PlayerController::find_interactable(&maps, (5, 5), &vec![e(7), e(8), e(9)]), Some(e(8)));
    assert_eq!(PlayerController::find_interactable(&maps, (5, 5), &vec![e(9)]), None);
    assert_eq!(PlayerController::find_interactable(&maps, (0, 0), &vec![e(7)]), None);
}

#[test]
fn picking_up_and_dropping() {
    let mut maps = room();
    let mut inventory = Inventory::new();
    maps.push(MapKind::Item, &e(5), (3, 3));
    maps.push(MapKind::Item, &e(6), (3, 3));
    assert_eq!(PlayerController::pick_up(&mut maps, (3, 3), &mut inventory), Some(e(6)));
    assert_eq!(PlayerController::pick_up(&mut maps, (4, 4), &mut inventory), None);
    assert_eq!(inventory.items, vec![e(6)]);
    assert_eq!(*maps.items.get((3, 3)), vec![Entry(e(5), true, false)]);
    assert_eq!(PlayerController::drop_item(&mut maps, (4, 4), &mut inventory), Some(e(6)));
    assert_eq!(*maps.items.get((4, 4)), vec![Entry(e(6), false, false)]);
    assert_eq!(PlayerController::drop_item(&mut maps, (4, 4), &mut inventory), None);
    assert!(inventory.items.is_empty());
}

#[test]
fn digit_keys_equip() {
    let mut inventory = Inventory::new();
    for i in 1..=10 {
        inventory.push(e(i));
    }
    let mut equipment = Equipment::new();
    assert_eq!(equipment.active_item, None);
    PlayerController::equip(&inventory, &mut equipment, 1);
    assert_eq!(equipment.active_item, Some(e(1)));
    PlayerController::equip(&inventory, &mut equipment, 9);
    assert_eq!(equipment.active_item, Some(e(9)));
    PlayerController::equip(&inventory, &mut equipment, 0);
    assert_eq!(equipment.active_item, Some(e(10)));
    assert_eq!(inventory.pop(), Some(e(10)));
    PlayerController::equip(&inventory, &mut equipment, 1);
    PlayerController::equip(&inventory, &mut equipment, 0);
    assert_eq!(equipment.active_item, Some(e(1)));
    assert_eq!(inventory.get(8), Some(e(9)));
    assert_eq!(inventory.get(9), None);
}

#[test]
fn key_door_opens_to_the_right_card() {
    let card = |level| Item { instance: ItemInstance::KeyCard(level) };
    let knife = Item { instance: ItemInstance::FlickKnife };
    assert!(Interactable::key_door_new_state(3, false, Some(&card(3))));
    assert!(Interactable::key_door_new_state(3, false, Some(&card(5))));
    assert!(!Interactable::key_door_new_state(3, false, Some(&card(2))));
    assert!(!Interactable::key_door_new_state(3, false, Some(&knife)));
    assert!(!Interactable::key_door_new_state(3, false, None));
    assert!(Interactable::key_door_new_state(0, false, None));
    assert!(Interactable::key_door_new_state(0, false, Some(&knife)));
    assert!(!Interactable::key_door_new_state(0, true, Some(&card(9))));

    let mut door = Interactable::new(InteractableInstance::KeyDoor(3, false));
    assert!(door.is_blocking());
    assert!(door.is_sight_blocking());
    assert_eq!(door.get_renderable(), Renderable::new('D', Color::Gold));
    door.interact_with(Some(&knife), None, Some(&card(3)));
    assert_eq!(door.state, InteractableInstance::KeyDoor(3, false));
    door.interact_with(Some(&knife), Some(&card(3)), None);
    assert_eq!(door.state, InteractableInstance::KeyDoor(3, true));
    assert!(!door.is_blocking());
    assert_eq!(door.get_renderable(), Renderable::new('_', Color::Gold));
    door.interact_with(None, None, None);
    assert_eq!(door.state, InteractableInstance::KeyDoor(3, false));
    door.interact_with(Some(&card(4)), None, None);
    door.reset();
    assert_eq!(door.state, InteractableInstance::KeyDoor(3, false));
}

#[test]
fn opening_a_door_clears_the_way() {
    let mut maps = room();
    let door_id = e(4);
    maps.push(MapKind::Character, &door_id, (5, 5));
    maps.set_sight_blocking(MapKind::Character, &door_id, (5, 5), true);
    let mut door = Interactable::new(InteractableInstance::KeyDoor(3, false));
    let mut state = GameState { is_turn_based: true, fov_needs_update: false };
    let card = Item { instance: ItemInstance::KeyCard(3) };
    let r = InteractionSystem::run(
        &mut door,
        Some(&card),
        None,
        None,
        &mut maps,
        &door_id,
        Some((5, 5)),
        &mut state,
    );
    assert_eq!(r, Renderable::new('_', Color::Gold));
    assert_eq!(*maps.characters.get((5, 5)), vec![Entry(door_id, false, false)]);
    assert!(!maps.is_not_planable(&e(1), (5, 5)));
    assert!(!maps.is_sight_blocking((5, 5)));
    assert_eq!(state, GameState { is_turn_based: true, fov_needs_update: true });
    // A card that does not fit changes nothing.
    let mut closed = Interactable::new(InteractableInstance::KeyDoor(5, false));
    let mut state = GameState { is_turn_based: false, fov_needs_update: false };
    maps.push(MapKind::Character, &e(6), (7, 7));
    maps.set_sight_blocking(MapKind::Character, &e(6), (7, 7), true);
    let r = InteractionSystem::run(
        &mut closed,
        Some(&card),
        None,
        None,
        &mut maps,
        &e(6),
        Some((7, 7)),
        &mut state,
    );
    assert_eq!(r, Renderable::new('D', Color::Gold));
    assert_eq!(*maps.characters.get((7, 7)), vec![Entry(e(6), true, true)]);
    assert!(!state.fov_needs_update);
    // A fixture without a place changes no index.
    let r = InteractionSystem::run(&mut closed, None, None, None, &mut maps, &e(6), None, &mut state);
    assert_eq!(r.character, 'D');
}

#[test]
fn dead_character_leaves_what_it_carried() {
    let mut maps = room();
    maps.push(MapKind::Character, &e(1), (3, 3));
    maps.push(MapKind::Character, &e(2), (3, 3));
    maps.push(MapKind::Item, &e(9), (3, 3));
    let mut inventory = Inventory::new();
    inventory.push(e(5));
    inventory.push(e(6));
    let mut log = EventLog::default();
    let alive = CharacterStats { health: 1, max_health: 100 };
    assert!(!StatsUpdater::run(&mut maps, &e(1), (3, 3), &alive, &mut inventory, &mut log));
    assert_eq!(inventory.items, vec![e(5), e(6)]);
    assert!(log.logs.is_empty());
    let dead = CharacterStats { health: 0, max_health: 100 };
    assert!(StatsUpdater::run(&mut maps, &e(1), (3, 3), &dead, &mut inventory, &mut log));
    assert_eq!(*maps.characters.get((3, 3)), vec![Entry(e(2), true, false)]);
    assert_eq!(
        *maps.items.get((3, 3)),
        vec![Entry(e(9), true, false), Entry(e(5), true, false), Entry(e(6), true, false)]
    );
    assert!(inventory.items.is_empty());
    assert_eq!(log.logs, vec![LogEvent::Died(e(1))]);
}

#[test]
fn highlight_colors() {
    let fresh = InTurn::default();
    let walked = InTurn { state: InTurnState::Idle, has_walked: true, action_points: 1 };
    assert_eq!(distance_color(4, &fresh), Some(Color::LightGreen));
    assert_eq!(distance_color(5, &fresh), Some(Color::LightOrange));
    assert_eq!(distance_color(9, &fresh), Some(Color::LightOrange));
    assert_eq!(distance_color(10, &fresh), None);
    assert_eq!(distance_color(4, &walked), Some(Color::LightOrange));
    assert_eq!(distance_color(5, &walked), None);
}

#[test]
fn highlights_follow_the_mouse() {
    let mut maps = room();
    maps.push(MapKind::Character, &e(1), (2, 2));
    let viewport = Viewport::new(0, 0, 80, 43);
    let turn = InTurn::default();
    // The mouse at screen (5, 9) is over the cell (5, 2).
    let walk = UiUpdater::highlights(&maps, &viewport, &e(1), (2, 2), (5, 9), false, Some(&turn), Some(5));
    assert_eq!(walk, Some(Highlight { color: Color::LightGreen, cells: vec![(3, 2), (4, 2), (5, 2)] }));
    let ray = UiUpdater::highlights(&maps, &viewport, &e(1), (2, 2), (5, 9), true, Some(&turn), Some(2));
    assert_eq!(ray, Some(Highlight { color: Color::LightRed, cells: vec![(3, 2), (4, 2)] }));
    assert_eq!(UiUpdater::highlights(&maps, &viewport, &e(1), (2, 2), (5, 9), true, Some(&turn), None), None);
    assert_eq!(UiUpdater::highlights(&maps, &viewport, &e(1), (2, 2), (5, 9), false, None, Some(5)), None);
    let walking = InTurn { state: InTurnState::Walking, has_walked: true, action_points: 1 };
    assert_eq!(UiUpdater::highlights(&maps, &viewport, &e(1), (2, 2), (5, 9), false, Some(&walking), None), None);
    assert_eq!(UiUpdater::highlights(&maps, &viewport, &e(1), (2, 2), (5, 3), false, Some(&turn), None), None);
    assert_eq!(UiUpdater::highlights(&maps, &viewport, &e(1), (2, 2), (17, 9), false, Some(&turn), None), None);
    assert_eq!(UiUpdater::hovered(&viewport, (5, 9)), Some((5, 2)));
    assert_eq!(UiUpdater::hovered(&viewport, (5, 6)), None);
}

#[test]
fn log_lines() {
    assert_eq!(UiUpdater::event_text(&LogEvent::FinishedTurn(e(1)), Some("Colton")), "Colton finished turn");
    assert_eq!(UiUpdater::event_text(&LogEvent::Died(e(1)), None), "unknwon died!");
    assert_eq!(UiUpdater::event_text(&LogEvent::DidDamage(e(1), e(2), 80), Some("Gage")), "Gage did 80 dmg");
    assert_eq!(UiUpdater::event_text(&LogEvent::DidDamage(e(1), e(2), -3), None), "unknwon did -3 dmg");
}

#[test]
fn numbers_as_text() {
    assert_eq!(digits(0), "0");
    assert_eq!(digits(7), "7");
    assert_eq!(digits(10), "10");
    assert_eq!(digits(1234567890), "1234567890");
    assert_eq!(digits(u64::MAX), u64::MAX.to_string());
    assert_eq!(decimal(-1), "-1");
    assert_eq!(decimal(0), "0");
    assert_eq!(decimal(i64::MIN), i64::MIN.to_string());
    assert_eq!(decimal(i64::MAX), i64::MAX.to_string());
}

#[test]
fn item_tables() {
    let item = |instance| Item { instance };
    assert_eq!(item(ItemInstance::DartGun).get_type(), (Rarity::Rare, Type::Weapon));
    assert_eq!(item(ItemInstance::Watch).get_type(), (Rarity::Common, Type::Item));
    assert_eq!(item(ItemInstance::HitachiRam).get_type(), (Rarity::Epic, Type::Item));
    assert_eq!(item(ItemInstance::KeyCard(2)).get_type(), (Rarity::Common, Type::Equipment));
    assert_eq!(item(ItemInstance::KeyCard(3)).get_type(), (Rarity::Uncommon, Type::Equipment));
    assert_eq!(item(ItemInstance::KeyCard(5)).get_type(), (Rarity::Uncommon, Type::Equipment));
    assert_eq!(item(ItemInstance::KeyCard(6)).get_type(), (Rarity::Rare, Type::Equipment));
    assert_eq!(item(ItemInstance::KeyCard(9)).get_type(), (Rarity::Common, Type::Equipment));
    assert_eq!(item(ItemInstance::DartGun).get_stats(), Some(ItemStats { damage: 80, range: 10 }));
    assert_eq!(item(ItemInstance::Shuriken).get_stats(), Some(ItemStats { damage: 20, range: 5 }));
    assert_eq!(item(ItemInstance::Manriki).get_stats(), Some(ItemStats { damage: 40, range: 2 }));
    assert_eq!(item(ItemInstance::FlickKnife).get_stats(), Some(ItemStats { damage: 20, range: 1 }));
    assert_eq!(item(ItemInstance::Lighter).get_stats(), None);
    assert_eq!(item(ItemInstance::DartGun).get_renderable(), Renderable::new('w', Color::Blue));
    assert_eq!(item(ItemInstance::HitachiRam).get_renderable(), Renderable::new('i', Color::Gold));
    assert_eq!(item(ItemInstance::GasMask).get_renderable(), Renderable::new('e', Color::Green));
    assert_eq!(item(ItemInstance::Watch).get_renderable(), Renderable::new('i', Color::Grey));
    assert_eq!(item(ItemInstance::Watch).get_description(), Description::new("Watch", "A plastic watch"));
    assert_eq!(
        item(ItemInstance::KeyCard(3)).get_description(),
        Description::new("Level 3 keycard", "A plastic keycard giving access to security level 3")
    );
    assert_eq!(item(ItemInstance::KeyCard(-12)).get_description().name, "Level -12 keycard");
    assert_eq!(item(ItemInstance::FlickKnife).get_description(), Description::new("Flick knife", ""));
}

#[test]
fn npc_tables() {
    let guard = Npc { instance: NpcInstance::Guard };
    let grunt = Npc { instance: NpcInstance::Grunt };
    assert_eq!(guard.get_renderable(), Renderable { character: 'G', color: Color::Orange });
    assert_eq!(
        Npc { instance: NpcInstance::Accountant }.get_renderable(),
        Renderable { character: 'a', color: Color::Grey }
    );
    assert_eq!(
        Npc { instance: NpcInstance::Technician }.get_renderable(),
        Renderable { character: 'T', color: Color::Yellow }
    );
    assert_eq!(guard.get_stats(), CharacterStats { health: 100, max_health: 100 });
    assert_eq!(Npc::pick_name(0), "Chopra");
    assert_eq!(Npc::pick_name(2), "Deep-Ando");
    assert_eq!(Npc::pick_name(10), "Ogura");
    assert_eq!(Npc::pick_name(11), "Chopra");
    assert_eq!(Npc::pick_name(u32::MAX), "Walker");
    assert_eq!(guard.describe("Rex"), Description::new("Rex", "Guard"));
    // A grunt goes by the base64 text of its name.
    assert_eq!(grunt.describe("Rex"), Description::new("UmV4", "Grunt"));
    assert_eq!(grunt.describe("Spike"), Description::new("U3Bpa2U=", "Grunt"));
}

#[test]
fn npc_names_are_drawn_from_the_list() {
    let names = [
        "Chopra", "Nagata", "Deep-Ando", "Walker", "Spike", "Rex", "Troy", "Del", "Dash", "Proto",
        "Ogura",
    ];
    let mut rng = rand::thread_rng();
    for _ in 0..50 {
        assert!(names.contains(&Npc::name(&mut rng)));
        let d = Npc { instance: NpcInstance::Technician }.get_description(&mut rng);
        assert!(names.contains(&d.name.as_str()));
        assert_eq!(d.description, "Technician");
    }
    let g = Npc { instance: NpcInstance::Grunt }.get_description(&mut rng);
    assert!(!names.contains(&g.name.as_str()));
    assert_eq!(g.description, "Grunt");
}

#[test]
fn tower_levels() {
    let mut tower = Tower::new(&vec![Level::Tower(0), Level::Tower(1), Level::Tower(0)]);
    assert_eq!(tower.floors.len(), 2);
    assert!(tower.get(&Level::Tower(0)).is_some());
    assert!(tower.get(&Level::Tower(1)).is_some());
    assert!(tower.get(&Level::Tower(2)).is_none());
    assert!(tower.get_mut(&Level::Tower(2)).is_none());
    tower.build();
    assert_eq!(tower.get(&Level::Tower(0)).unwrap().tiles.get((27, 22)), Some(Tile::floor(0)));
    assert_eq!(tower.get(&Level::Tower(1)).unwrap().tiles.get((27, 22)), Some(Tile::bedrock()));
    tower.get_mut(&Level::Tower(1)).unwrap().push(MapKind::Item, &e(3), (1, 1));
    assert_eq!(*tower.get(&Level::Tower(1)).unwrap().items.get((1, 1)), vec![Entry(e(3), true, false)]);
    assert!(tower.get(&Level::Tower(0)).unwrap().items.is_empty((1, 1)));
    let mut fov = Visibility::new();
    fov.set((27, 22), true);
    tower.update(&fov);
    assert!(tower.get(&Level::Tower(0)).unwrap().tiles.is_discovered((27, 22)));
    assert!(tower.get(&Level::Tower(1)).unwrap().tiles.is_discovered((27, 22)));
    tower.clear();
    assert!(tower.get(&Level::Tower(1)).unwrap().items.is_empty((1, 1)));
    assert!(tower.get(&Level::Tower(0)).unwrap().tiles.is_discovered((27, 22)));
    let none = Tower::new(&vec![]);
    assert!(none.get(&Level::Tower(0)).is_none());
}

#[test]
fn tower_reset_places_the_roster() {
    let l0 = Level::Tower(0);
    let mut tower = Tower::new(&vec![l0]);
    tower.get_mut(&l0).unwrap().push(MapKind::Character, &e(99), (15, 15));
    let roster = vec![
        Placement { entity: e(1), level: l0, cell: (15, 15), kind: SpawnKind::Player },
        Placement { entity: e(2), level: l0, cell: (16, 16), kind: SpawnKind::Player },
        Placement { entity: e(3), level: l0, cell: (25, 21), kind: SpawnKind::Fixture { blocking: true, sight_blocking: true } },
        Placement { entity: e(4), level: l0, cell: (15, 15), kind: SpawnKind::Npc },
        Placement { entity: e(5), level: l0, cell: (15, 15), kind: SpawnKind::Item },
        Placement { entity: e(6), level: l0, cell: (15, 15), kind: SpawnKind::Fixture { blocking: false, sight_blocking: false } },
        Placement { entity: e(7), level: Level::Tower(3), cell: (15, 15), kind: SpawnKind::Npc },
        Placement { entity: e(8), level: l0, cell: (80, 15), kind: SpawnKind::Npc },
    ];
    tower.reset(&roster);
    let maps = tower.get(&l0).unwrap();
    assert_eq!(
        *maps.characters.get((15, 15)),
        vec![Entry(e(6), false, false), Entry(e(1), true, false), Entry(e(4), true, false)]
    );
    assert_eq!(*maps.characters.get((16, 16)), vec![Entry(e(2), true, false)]);
    assert_eq!(*maps.characters.get((25, 21)), vec![Entry(e(3), true, true)]);
    assert_eq!(*maps.items.get((15, 15)), vec![Entry(e(5), true, false)]);
    tower.reset(&vec![]);
    assert!(tower.get(&l0).unwrap().characters.is_empty((15, 15)));
}

#[test]
fn tower_highlights() {
    let mut tower = Tower::new(&vec![Level::Tower(0)]);
    assert_eq!(tower.highlight_color, Color::LightGreen);
    tower.set_highlight_color(Color::LightRed);
    tower.add_highlights(&vec![(1, 1), (5, 5)]);
    tower.add_highlights(&vec![(30, 30)]);
    assert_eq!(tower.highlights, vec![(1, 1), (5, 5), (30, 30)]);
    let viewport = Viewport::new(2, 2, 10, 10);
    let view = tower.draw(&Level::Tower(0), &Visibility::new(), &viewport);
    assert_eq!(view.highlights, vec![(3, 3)]);
    assert_eq!(view.highlight_color, Color::LightRed);
    assert_eq!(view.glyphs, vec![]);
    let missing = tower.draw(&Level::Tower(4), &Visibility::new(), &viewport);
    assert_eq!(missing.glyphs, vec![]);
    tower.clear_highlights();
    assert!(tower.highlights.is_empty());
}

#[test]
fn describing_under_any_name() {
    let grunt = Npc { instance: NpcInstance::Grunt };
    let guard = Npc { instance: NpcInstance::Guard };
    assert_eq!(grunt.try_describe("Rex"), Some(Description::new("UmV4", "Grunt")));
    assert_eq!(grunt.try_describe(""), Some(Description::new("", "Grunt")));
    assert_eq!(grunt.try_describe("Troy"), Some(Description::new("VHJveQ==", "Grunt")));
    assert_eq!(guard.try_describe("Deep-Ando"), Some(Description::new("Deep-Ando", "Guard")));
}
