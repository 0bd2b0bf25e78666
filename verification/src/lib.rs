//! The rules of a two player laser tank game: the messages between the game
//! server and the tanks, the bookkeeping of the connected tanks, the course of
//! a round, and what a tank does with the messages it receives.

pub mod wire;
pub mod communication;
pub mod single;
pub mod clock;
pub mod settings;
pub mod logic;
pub mod game;
pub mod motor;
pub mod robot;
pub mod view;
pub mod laws;
pub mod game_laws;
pub mod server_laws;
pub mod tank_laws;
pub mod text_laws;
pub mod message_laws;
pub mod number_laws;
