//! Model weights as they are handed to the engine.

pub mod weights;
