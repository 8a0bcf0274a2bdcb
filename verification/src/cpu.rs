//! Whether a CPU can run inference.

use vstd::prelude::*;

verus! {

/// Exit status `gazed` uses when it stops because the CPU cannot run inference. The packaged unit
/// lists it in `RestartPreventExitStatus=`, so the two have to change together.
pub const EXIT_UNSUPPORTED_CPU: u8 = 78;

pub const UNSUPPORTED_CPU_MESSAGE: &'static str =
    "AVX2 is unavailable; gazed cannot run on this CPU";

pub const UNSUPPORTED_CPU_FIX: &'static str =
    "Use a machine with AVX2 support. The CLI can run here, but the daemon cannot.";

/// Whether the prebuilt ONNX Runtime that `gazed` links can execute: its startup code issues AVX2
/// instructions on x86, and needs nothing special elsewhere.
pub fn supports_inference(x86: bool, avx2: bool) -> (r: bool)
    ensures
        r == (x86 ==> avx2),
{
    !x86 || avx2
}

} // verus!
