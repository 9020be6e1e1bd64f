pub mod game;
pub mod neural_network;
