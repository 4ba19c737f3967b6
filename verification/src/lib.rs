//! Verified core of a terminal audio visualizer.
//!
//! Raw mono samples come in through a fixed-capacity ring buffer, pass
//! through a windowed spectral front-end, a perceptually spaced triangular
//! filterbank, a hysteretic noise gate, and a flow-plus-spring dynamics
//! stage, and come out as per-band display levels once per frame.
//!
//! All levels, samples and coefficients are Q16.16 fixed-point integers;
//! the surrounding application converts to and from machine floats at the
//! capture and transform edges.

pub mod analyzer;
pub mod buffer;
pub mod config;
pub mod devices;
pub mod dsp;
pub mod dynamics;
pub mod filterbank;
pub mod gate;
pub mod num;

pub use analyzer::SpectrumAnalyzer;
pub use buffer::SharedBuf;
pub use config::Config;
pub use devices::score_device_name;
pub use dynamics::FlowSpringParams;
pub use filterbank::{build_filterbank, Band};
pub use gate::{GateParams, GateState};
