//! Acquisition orchestration core for a balance-monitoring tool.
//!
//! The crate verifies the three pieces that carry the tool's correctness
//! burden: the daily-cycle state store with its durable file codec, the
//! bounded worker-process pool with ticket-based leasing, and the
//! per-account fallback pipeline that arbitrates between a fast probe
//! and a slow browser-driven strategy.
//!
//! Everything that touches the outside world — files, processes, the
//! network, the clock beyond one reading — stays with the caller: the
//! library takes plain values in and hands plain values back, and its
//! contracts say exactly what each step decides.

pub mod codec;
pub mod config;
pub mod date;
pub mod models;
pub mod monitor;
pub mod pipeline;
pub mod pool;
pub mod store;
pub mod strmap;
pub mod text;
