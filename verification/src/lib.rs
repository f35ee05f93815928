//! A small verified game runtime — a type-indexed heterogeneous store, a
//! system-dispatching scheduler with interval gating, plugin composition —
//! and the snake game logic built on it.

pub mod game;
pub mod scheduler;
pub mod storage;
