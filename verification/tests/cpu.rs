//! CPUs that can run inference.

use gaze::cpu::{supports_inference, EXIT_UNSUPPORTED_CPU};

#[test]
fn only_x86_needs_avx2() {
    assert!(supports_inference(true, true));
    assert!(!supports_inference(true, false));
    assert!(supports_inference(false, false));
    assert_eq!(EXIT_UNSUPPORTED_CPU, 78);
}
