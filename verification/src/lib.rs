pub mod game;
pub mod snake;
