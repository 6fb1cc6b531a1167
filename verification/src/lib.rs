pub mod card;
pub mod game;
pub mod player;
pub mod proto;
pub mod ui;
