//! A zero-copy packet benchmark: frame pool, descriptor rings, the engine
//! that drives them, and the classifier that steers packets to them.

pub mod af_xdp;
pub mod clock;
pub mod config;
pub mod engine;
pub mod frame;
pub mod headers;
pub mod kernel;
pub mod loopback;
pub mod metrics;
pub mod ownership;
pub mod ring;
pub mod router;
