//! Sessions: compiled targets, batches, set sequences and the session state machine.

pub mod apply;
pub mod batch;
pub mod chip_laws;
pub mod command;
pub mod compiled;
pub mod edge_laws;
pub mod execute;
pub mod fault_laws;
pub mod init_laws;
pub mod initialized;
pub mod laws;
pub mod pins;
pub mod plan_laws;
pub mod reactor;
pub mod reply_laws;
pub mod sequence;
pub mod state;
pub mod step_laws;
pub mod value_laws;
pub mod write_laws;
