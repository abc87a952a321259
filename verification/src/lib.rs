//! A terminal arcade game's simulation-and-render pipeline: frame buffers,
//! differential rendering, the frame channel and the simulation state machine.

pub mod frame;
pub mod render;
pub mod channel;
pub mod invaders;
pub mod player;
pub mod game;
