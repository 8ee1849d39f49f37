pub mod layout;
pub mod tier;
pub mod color;
pub mod canvas;
