//! A terminal game of Hangman: the game's state machine, the composition of
//! the screen it is played on, and the handling of secret words.

pub mod controller;
pub mod model;
pub mod view;
pub mod words;
