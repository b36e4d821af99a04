//! Tactical core of a grid-based roguelike: geometry, tile map, spatial
//! index, pathfinding and turn scheduling.

pub mod appearance;
pub mod common;
pub mod entity_map;
pub mod event_log;
pub mod game_state;
pub mod game_stats;
pub mod geometry;
pub mod input_handler;
pub mod interaction;
pub mod interaction_system;
pub mod inventory;
pub mod item;
pub mod maps;
pub mod move_to_controller;
pub mod npc;
pub mod pathfinder;
pub mod player;
pub mod player_controller;
pub mod progress;
pub mod random;
pub mod round_scheduler;
pub mod space;
pub mod stats_updater;
pub mod text;
pub mod tile_map;
pub mod time;
pub mod tower;
pub mod ui;
pub mod ui_updater;
