//! The configuration, as far as the checks and the settings window read it.

use vstd::prelude::*;

verus! {

pub const CONFIG_PATH: &'static str = "/etc/gaze/config.toml";

/// The camera source that is resolved at runtime.
pub const DEFAULT_RGB_CAMERA: &'static str = "primary";

/// A number with a fraction: its IEEE 754 double bits, and how it is shown.
pub struct Reading {
    pub bits: u64,
    pub shown: String,
}

/// The bits of the numbers that bound the liveness settings. For numbers above zero the order of
/// the bits is the order of the numbers, and every negative, infinite or undefined number has bits
/// above those of a finite positive one.
pub const MIN_LIVENESS_THRESHOLD_BITS: u64 = 0x3fb9_9999_9999_999a;

pub const MAX_LIVENESS_THRESHOLD_BITS: u64 = 0x3ff0_0000_0000_0000;

pub const MIN_LIVENESS_MAX_SECONDS_BITS: u64 = 0x3fc9_9999_9999_999a;

pub const MAX_LIVENESS_MAX_SECONDS_BITS: u64 = 0x403e_0000_0000_0000;

pub struct SecurityConfig {
    pub level: String,
    pub detector: String,
    pub recognizer: String,
    pub rgb_threshold: Reading,
    pub ir_threshold: Reading,
    pub hybrid_policy: String,
}

pub struct CameraConfig {
    pub rgb: String,
    pub ir: String,
    pub emitter_enabled: bool,
    pub parallel_capture: String,
    pub dark_luma_threshold: u8,
}

pub struct EnrollmentConfig {
    pub max_templates: u32,
    pub min_face_size_ratio: Reading,
}

pub struct LivenessConfig {
    pub enabled: bool,
    pub threshold: Reading,
    pub max_seconds: Reading,
    pub max_frames: u32,
}

pub struct AuthConfig {
    pub require_confirmation_lock_screen: bool,
    pub require_confirmation_elevation: bool,
    pub abort_if_ssh: bool,
    pub abort_if_lid_closed: bool,
    pub abort_before_first_resume: bool,
    pub resume_grace_ms: u64,
    pub start_delay_ms: u64,
    pub start_delay_scope: String,
}

pub struct StorageConfig {
    pub encrypt_templates: bool,
    pub unlock_gnome_keyring: bool,
    pub unlock_kwallet: bool,
}

pub struct InferenceConfig {
    pub execution_provider: String,
    pub device: String,
}

pub struct Config {
    pub security: SecurityConfig,
    pub cameras: CameraConfig,
    pub enrollment: EnrollmentConfig,
    pub liveness: LivenessConfig,
    pub auth: AuthConfig,
    pub storage: StorageConfig,
    pub inference: InferenceConfig,
}

/// Which security setting a complaint is about.
#[derive(Clone, Copy, PartialEq, Eq, Structural, Debug)]
pub enum SecurityField {
    Level,
    ModelQuality,
    Threshold,
    HybridPolicy,
}

pub struct SecurityError {
    pub field: SecurityField,
    pub message: String,
}

/// What the validation of each table of the configuration said.
pub struct Validation {
    pub security: Vec<SecurityError>,
    pub enrollment: Option<String>,
    pub cameras: Option<String>,
    pub inference: Option<String>,
    /// Whether the keyring settings can work together.
    pub keyring: Option<String>,
}

/// A number lies between two others.
pub open spec fn within(reading: Reading, low: u64, high: u64) -> bool {
    low <= reading.bits <= high
}

impl Reading {
    pub fn within(&self, low: u64, high: u64) -> (r: bool)
        ensures
            r == within(*self, low, high),
    {
        low <= self.bits && self.bits <= high
    }
}

} // verus!
