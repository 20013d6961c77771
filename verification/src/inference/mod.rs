//! Settings of the inference back ends.

pub mod asr_bridge;
pub mod framing;
pub mod kv_cache;
pub mod python_bridge;
