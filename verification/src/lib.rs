//! Rules, input handling and layout of a terminal snake game.
pub mod game;
pub mod input;
pub mod render;
pub mod ui;
pub mod app;
