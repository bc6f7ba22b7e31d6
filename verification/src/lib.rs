pub mod cli;
pub mod text;
pub mod sorting;
pub mod systems;
pub mod zkill;
pub mod esi;
pub mod display;
pub mod commands;
