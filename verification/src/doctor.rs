//! What `gaze doctor` concludes from what it finds on a machine.
//!
//! Every check takes the facts that were gathered as plain values and adds its findings to a
//! report.

pub mod cameras;
pub mod daemon;
pub mod desktop;
pub mod examination;
pub mod greeter;
pub mod kde;
pub mod integration;
pub mod settings;
pub mod stack;
pub mod system;
pub mod wallet;
