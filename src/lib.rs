pub mod config;
pub mod entity;
pub mod identity;
pub mod lifecycle;
pub mod memory;
pub mod persistence;
pub mod room;
pub mod text;
