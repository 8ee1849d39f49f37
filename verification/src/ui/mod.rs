pub mod hud;
pub mod resize;
