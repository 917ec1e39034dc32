//! Game rules of a small space-station survival game: the engine pipe puzzle,
//! the reactor wiring task, the satellite hacking grid, the collision and
//! antenna consoles, malfunction bookkeeping, console selection, the loading
//! screen, animation and platform bookkeeping, the debug overlay layout and a
//! few numeric helpers, each with a machine-checked contract.

pub mod random;
pub mod utils;
pub mod rapier;
pub mod pipe_puzzle;
pub mod wires;
pub mod hack;
pub mod malfunction;
pub mod animation;
pub mod platforms;
pub mod overlay;
pub mod states;
pub mod interaction;
pub mod consoles;
pub mod chain;
pub mod player;
