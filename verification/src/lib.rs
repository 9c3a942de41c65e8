//! The rules of a 2.5D beat-'em-up: fighter states and their priorities, animation
//! cycling, attacks and damage, item pick-up, enemy decisions, asset paths, menus and
//! script scheduling, each stated as a contract over plain values.

pub mod animation;
pub mod assets;
pub mod attack;
pub mod audio;
pub mod collision;
pub mod config;
pub mod enemy_ai;
pub mod fighter_state;
pub mod input;
pub mod item;
pub mod loading;
pub mod localization;
pub mod random;
pub mod scripting;
pub mod settings;
pub mod state;
pub mod text;
pub mod ui;
