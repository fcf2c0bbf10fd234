pub mod config;
pub mod constants;
pub mod curver_error;
pub mod curver_ws_actor;
pub mod game;
pub mod identity;
pub mod message;
pub mod point;
pub mod room;
pub mod server;
pub mod start;
pub mod table;
