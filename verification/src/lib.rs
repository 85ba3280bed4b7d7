//! The decision core of a workload runtime.

pub mod adapter;
pub mod bindings;
pub mod control_catalog;
pub mod exec_events;
pub mod executor;
pub mod model;
pub mod observer;
pub mod params;
pub mod phase_outcome;
pub mod strmap;
pub mod text;
pub mod value;
