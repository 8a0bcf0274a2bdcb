//! Which runtime a model is loaded on, and what is reported of it.

use crate::config::InferenceConfig;
use crate::text;
use vstd::prelude::*;

verus! {

/// The runtime that was asked for, the one that is used, and why they differ.
#[derive(Debug, PartialEq, Eq)]
pub struct InferenceRuntime {
    pub requested_execution_provider: String,
    pub requested_device: String,
    pub active_execution_provider: String,
    pub active_device: String,
    pub fallback_reason: Option<String>,
}

pub struct Runtime {
    pub requested_provider: Seq<char>,
    pub requested_device: Seq<char>,
    pub provider: Seq<char>,
    pub device: Seq<char>,
    pub reason: Option<Seq<char>>,
}

impl View for InferenceRuntime {
    type V = Runtime;

    open spec fn view(&self) -> Runtime {
        Runtime {
            requested_provider: self.requested_execution_provider@,
            requested_device: self.requested_device@,
            provider: self.active_execution_provider@,
            device: self.active_device@,
            reason: text::optional(self.fallback_reason),
        }
    }
}

pub open spec fn on_cpu(config: InferenceConfig, reason: Option<Seq<char>>) -> Runtime {
    Runtime {
        requested_provider: config.execution_provider@,
        requested_device: config.device@,
        provider: "cpu"@,
        device: "cpu"@,
        reason,
    }
}

pub open spec fn on_openvino(config: InferenceConfig) -> Runtime {
    Runtime {
        requested_provider: config.execution_provider@,
        requested_device: config.device@,
        provider: "openvino"@,
        device: config.device@,
        reason: None,
    }
}

impl InferenceRuntime {
    pub fn cpu(config: &InferenceConfig, fallback_reason: Option<String>) -> (r: InferenceRuntime)
        ensures
            r@ == on_cpu(*config, text::optional(fallback_reason)),
    {
        InferenceRuntime {
            requested_execution_provider: config.execution_provider.clone(),
            requested_device: config.device.clone(),
            active_execution_provider: "cpu".to_owned(),
            active_device: "cpu".to_owned(),
            fallback_reason,
        }
    }

    pub fn openvino(config: &InferenceConfig) -> (r: InferenceRuntime)
        ensures
            r@ == on_openvino(*config),
    {
        InferenceRuntime {
            requested_execution_provider: config.execution_provider.clone(),
            requested_device: config.device.clone(),
            active_execution_provider: "openvino".to_owned(),
            active_device: config.device.clone(),
            fallback_reason: None,
        }
    }
}

/// Why a configuration cannot be used: OpenVINO in a build without it, or values that are not valid.
pub open spec fn why_unusable(
    config: InferenceConfig,
    openvino_build: bool,
    invalid: Option<Seq<char>>,
) -> Option<Seq<char>> {
    if !openvino_build && config.execution_provider@ == "openvino"@ {
        Some(
            "this Gaze build does not include OpenVINO support; rebuild with the \"openvino\" Cargo feature"@,
        )
    } else {
        invalid
    }
}

pub fn unusable_reason(
    config: &InferenceConfig,
    openvino_build: bool,
    invalid: Option<String>,
) -> (r: Option<String>)
    ensures
        text::optional(r) == why_unusable(*config, openvino_build, text::optional(invalid)),
{
    if !openvino_build && text::str_eq(config.execution_provider.as_str(), "openvino") {
        return Some(
            "this Gaze build does not include OpenVINO support; rebuild with the \"openvino\" Cargo feature".to_owned(),
        );
    }
    invalid
}

/// OpenVINO is configured, and can be used.
pub open spec fn sets_up_openvino(
    config: InferenceConfig,
    openvino_build: bool,
    invalid: Option<Seq<char>>,
) -> bool {
    why_unusable(config, openvino_build, invalid) is None && config.execution_provider@
        == "openvino"@
}

pub open spec fn both_failed(reason: Seq<char>) -> Seq<char> {
    "OpenVINO setup failed ("@ + reason + ") and the ONNX Runtime CPU fallback also failed"@
}

/// Loads a model on the runtime that is configured, or on the CPU where that one cannot be used.
/// `cpu` and `openvino` load it. A configuration that cannot be used is no reason not to start: only
/// a model that the CPU cannot load either is an error. OpenVINO is only set up where it is
/// configured and can be used, and the CPU then only where that failed.
pub fn create_session<S, C: FnOnce() -> Result<S, String>, O: FnOnce() -> Result<S, String>>(
    config: &InferenceConfig,
    openvino_build: bool,
    invalid: Option<String>,
    cpu: C,
    openvino: O,
) -> (r: Result<(S, InferenceRuntime), String>)
    requires
        sets_up_openvino(*config, openvino_build, text::optional(invalid)) ==> call_requires(
            openvino,
            (),
        ),
        !sets_up_openvino(*config, openvino_build, text::optional(invalid)) || (exists|
            reason: String,
        | #[trigger] call_ensures(openvino, (), Err::<S, String>(reason))) ==> call_requires(cpu, ()),
    ensures
        ({
            let unusable = why_unusable(*config, openvino_build, text::optional(invalid));
            if unusable is Some {
                match r {
                    Ok((session, runtime)) => call_ensures(cpu, (), Ok(session)) && runtime@
                        == on_cpu(*config, unusable),
                    Err(error) => call_ensures(cpu, (), Err(error)),
                }
            } else if config.execution_provider@ == "openvino"@ {
                match r {
                    Ok((session, runtime)) => {
                        ||| call_ensures(openvino, (), Ok(session)) && runtime@ == on_openvino(
                            *config,
                        )
                        ||| exists|reason: String|
                            {
                                &&& #[trigger] call_ensures(openvino, (), Err(reason))
                                &&& call_ensures(cpu, (), Ok(session))
                                &&& runtime@ == on_cpu(*config, Some(reason@))
                            }
                    },
                    Err(error) => exists|reason: String, last: String|
                        {
                            &&& #[trigger] call_ensures(openvino, (), Err(reason))
                            &&& #[trigger] call_ensures(cpu, (), Err(last))
                            &&& error@ == both_failed(reason@)
                        },
                }
            } else {
                match r {
                    Ok((session, runtime)) => call_ensures(cpu, (), Ok(session)) && runtime@
                        == on_cpu(*config, None),
                    Err(error) => call_ensures(cpu, (), Err(error)),
                }
            }
        }),
{
    if let Some(reason) = unusable_reason(config, openvino_build, invalid) {
        return match cpu() {
            Ok(session) => Ok((session, InferenceRuntime::cpu(config, Some(reason)))),
            Err(error) => Err(error),
        };
    }
    if text::str_eq(config.execution_provider.as_str(), "openvino") {
        return match openvino() {
            Ok(session) => Ok((session, InferenceRuntime::openvino(config))),
            Err(reason) => {
                match cpu() {
                    Ok(session) => {
                        let shown = reason.clone();
                        Ok((session, InferenceRuntime::cpu(config, Some(shown))))
                    },
                    Err(_) => Err(
                        text::cat3(
                            "OpenVINO setup failed (",
                            reason.as_str(),
                            ") and the ONNX Runtime CPU fallback also failed",
                        ),
                    ),
                }
            },
        };
    }
    match cpu() {
        Ok(session) => Ok((session, InferenceRuntime::cpu(config, None))),
        Err(error) => Err(error),
    }
}

/// The device as OpenVINO names it.
pub fn openvino_device(device: &str) -> (r: String)
    ensures
        r@ == text::uppered(device@),
{
    let device = text::upper(text::chars(device).as_slice());
    text::string(device.as_slice())
}

pub open spec fn too_old(version: Seq<char>, minor: u32) -> Seq<char> {
    "the ONNX Runtime library loaded at startup is version "@ + version
        + ", which is older than the 1."@ + text::decimal(minor as nat)
        + ".x this build of Gaze requires; install a newer ONNX Runtime, or rebuild Gaze against the one you have"@
}

/// Whether the ONNX Runtime that was loaded has the interface that is asked for.
pub fn ensure_supported_runtime(version: &str, minor: u32, offers_interface: bool) -> (r: Result<
    (),
    String,
>)
    ensures
        match r {
            Ok(_) => offers_interface,
            Err(error) => !offers_interface && error@ == too_old(version@, minor),
        },
{
    if offers_interface {
        return Ok(());
    }
    let minor = text::decimal_text(minor as u64);
    Err(
        text::cat5(
            "the ONNX Runtime library loaded at startup is version ",
            version,
            ", which is older than the 1.",
            minor.as_str(),
            ".x this build of Gaze requires; install a newer ONNX Runtime, or rebuild Gaze against the one you have",
        ),
    )
}

/// What was asked for is kept whatever is used; the processor is used under its own name, and the
/// accelerator with the device that was asked for.
pub proof fn a_runtime_keeps_what_was_asked_for(config: InferenceConfig, reason: Option<Seq<char>>)
    ensures
        on_cpu(config, reason).requested_provider == config.execution_provider@,
        on_cpu(config, reason).requested_device == config.device@,
        on_cpu(config, reason).provider == "cpu"@,
        on_cpu(config, reason).device == "cpu"@,
        on_cpu(config, reason).reason == reason,
        on_openvino(config).requested_provider == config.execution_provider@,
        on_openvino(config).requested_device == config.device@,
        on_openvino(config).provider == "openvino"@,
        on_openvino(config).device == config.device@,
        on_openvino(config).reason is None,
{
}

/// The accelerator is set up exactly when it is asked for, this build has it, and the configuration is
/// valid. A build without it says so before anything else.
pub proof fn openvino_is_set_up_only_where_it_can_be(
    config: InferenceConfig,
    build: bool,
    invalid: Option<Seq<char>>,
)
    ensures
        sets_up_openvino(config, build, invalid) <==> config.execution_provider@ == "openvino"@
            && build && invalid is None,
        why_unusable(config, build, invalid) is None <==> invalid is None && (
        config.execution_provider@ == "openvino"@ ==> build),
        build ==> why_unusable(config, build, invalid) == invalid,
        config.execution_provider@ != "openvino"@ ==> why_unusable(config, build, invalid)
            == invalid,
{
}

/// Both failures are told of in one text, which holds the reason; a library that is too old is told of
/// with its version.
pub proof fn failures_hold_their_reason(reason: Seq<char>, version: Seq<char>, minor: u32)
    ensures
        text::mentions(both_failed(reason), reason),
        text::mentions(too_old(version, minor), version),
        text::mentions(too_old(version, minor), text::decimal(minor as nat)),
{
    text::a_mentioned_text_stands_somewhere(both_failed(reason), reason);
    let lead = "the ONNX Runtime library loaded at startup is version "@;
    let middle = ", which is older than the 1."@;
    let tail =
        ".x this build of Gaze requires; install a newer ONNX Runtime, or rebuild Gaze against the one you have"@;
    let digits = text::decimal(minor as nat);
    let shown = too_old(version, minor);
    text::a_mentioned_text_stands_somewhere(shown, version);
    text::a_mentioned_text_stands_somewhere(shown, digits);
    assert(both_failed(reason) == "OpenVINO setup failed ("@ + reason
        + ") and the ONNX Runtime CPU fallback also failed"@);
    assert(shown =~= lead + version + (middle + digits + tail));
    assert(shown =~= (lead + version + middle) + digits + tail);
}

} // verus!
