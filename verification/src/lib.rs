//! Core of a tile-grid adventure simulation.

pub mod action_system;
pub mod actions;
pub mod character_moving_system;
pub mod input_system;
pub mod components;
pub mod constants;
pub mod events;
pub mod map;
pub mod plan_stroll_system;
pub mod rendering;
pub mod rng;
pub mod text;
pub mod ui;
pub mod ui_system;
pub mod world;
