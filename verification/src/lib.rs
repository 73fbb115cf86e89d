//! Frame Engine: the verified core of a deterministic, fixed-timestep
//! simulation engine.
use vstd::prelude::*;

pub mod clock;
pub mod controls;
pub mod editor;
pub mod font;
pub mod input;
pub mod net;
pub mod obj;
pub mod physics;
pub mod script;
pub mod storage;
pub mod systems;
pub mod text;
pub mod world;
