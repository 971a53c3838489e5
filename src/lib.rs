pub mod data_types;
pub mod player;
pub mod tally;
pub mod game_state;
pub mod turn;
pub mod resolve;
pub mod moves;
pub mod laws;
mod random;
pub mod setup;
pub mod agent;
pub mod api;
pub mod loader;
