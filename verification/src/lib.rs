use vstd::prelude::*;

pub mod components;
pub mod game;
pub mod map;
pub mod player;
pub mod render;
pub mod store;
