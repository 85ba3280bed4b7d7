//! The scenario executor as decisions: what to run, when to stop, and what the
//! outcome is. The tasks themselves are driven from outside.

pub mod context;
pub mod coords;
pub mod cursor;
pub mod do_loop;
pub mod node;
pub mod optimize;
pub mod phase_end;
pub mod phase_metrics;
pub mod phase_setup;
pub mod phase_start;
pub mod position;
pub mod provenance;
pub mod scenario;
pub mod scene;
pub mod shell;
pub mod source;
pub mod sweep;
pub mod vars;
