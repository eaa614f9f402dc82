use vstd::prelude::*;

pub mod ability;
pub mod action_points;
pub mod ai;
pub mod assoc;
pub mod character;
pub mod combat;
pub mod console;
pub mod dialog;
pub mod dialog_screen;
pub mod entity;
pub mod game;
pub mod map_gen;
pub mod npc_population;
pub mod pathfinding;
pub mod pending_effects;
pub mod player_input;
pub mod save;
pub mod scripted_encounter;
pub mod stats;
pub mod temporal_flux;
pub mod terrain;
pub mod travel_system;
pub mod text;
pub mod turn;
pub mod yarn;
pub mod yarn_runner;
pub mod zone;

verus! {

} // verus!
