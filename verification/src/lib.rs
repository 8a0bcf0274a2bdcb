//! Facial authentication for Linux: the rules and decisions behind Gaze.

pub mod apply_queue;
pub mod camera;
pub mod config;
pub mod config_dialog;
pub mod cpu;
pub mod detect;
pub mod doctor;
pub mod enrollment;
pub mod face;
pub mod faces_window;
pub mod frame;
pub mod inference;
pub mod keyring;
pub mod led;
pub mod pam;
pub mod pam_stack;
pub mod paths;
pub mod profiles;
pub mod report;
pub mod secret;
pub mod text;
pub mod tpm;
