use vstd::prelude::*;

pub mod coord;
pub mod pos_set;
pub mod text;
pub mod level;
pub mod state;
pub mod rules;
pub mod render;
pub mod editor_model;
pub mod editor;
pub mod messages;
pub mod session;
pub mod persist;
pub mod menu;
pub mod paths;
pub mod editor_session;
