//! The runtime that models are loaded on.

use gaze::config::InferenceConfig;
use gaze::inference::{
    create_session, ensure_supported_runtime, openvino_device, unusable_reason, InferenceRuntime,
};

fn inference(execution_provider: &str, device: &str) -> InferenceConfig {
    InferenceConfig {
        execution_provider: execution_provider.to_string(),
        device: device.to_string(),
    }
}

/// What the validation of a configuration says.
fn invalid(config: &InferenceConfig) -> Option<String> {
    let device = config.device.as_str();
    let valid = match config.execution_provider.as_str() {
        "cpu" => device == "cpu",
        "openvino" => ["cpu", "gpu", "npu"].contains(&device),
        _ => false,
    };
    if valid {
        None
    } else {
        Some(format!(
            "inference.device {device:?} does not go with {:?}",
            config.execution_provider
        ))
    }
}

#[test]
fn runtime_names_remain_lowercase() {
    let config = inference("openvino", "gpu");
    let runtime = InferenceRuntime::openvino(&config);
    assert_eq!(runtime.active_execution_provider, "openvino");
    assert_eq!(runtime.active_device, "gpu");
}

#[test]
fn cpu_only_build_falls_back_for_openvino_instead_of_refusing_to_start() {
    let config = inference("openvino", "gpu");
    let reason = unusable_reason(&config, false, invalid(&config))
        .expect("a cpu-only build cannot honour openvino");
    assert!(reason.contains("does not include OpenVINO support"));
}

#[test]
fn a_usable_cpu_configuration_has_no_fallback_reason() {
    let config = inference("cpu", "cpu");
    assert_eq!(unusable_reason(&config, false, invalid(&config)), None);
}

#[test]
fn an_invalid_device_falls_back_rather_than_failing() {
    let config = inference("cpu", "npu");
    let reason =
        unusable_reason(&config, false, invalid(&config)).expect("cpu cannot drive an npu");
    assert!(reason.contains("inference.device"));
}

fn loads() -> Result<u32, String> {
    Ok(1)
}

fn loads_openvino() -> Result<u32, String> {
    Ok(2)
}

fn fails() -> Result<u32, String> {
    Err("no such device".to_string())
}

#[test]
fn openvino_falls_back_to_the_cpu() {
    let config = inference("openvino", "npu");
    let (session, runtime) = create_session(&config, true, None, loads, loads_openvino).unwrap();
    assert_eq!((session, runtime.active_device.as_str()), (2, "npu"));
    assert_eq!(runtime.fallback_reason, None);

    let (session, runtime) = create_session(&config, true, None, loads, fails).unwrap();
    assert_eq!(session, 1);
    assert_eq!(runtime.requested_execution_provider, "openvino");
    assert_eq!(runtime.requested_device, "npu");
    assert_eq!(runtime.active_execution_provider, "cpu");
    assert_eq!(runtime.active_device, "cpu");
    assert_eq!(runtime.fallback_reason.as_deref(), Some("no such device"));

    assert_eq!(
        create_session(&config, true, None, fails, fails).err(),
        Some(
            "OpenVINO setup failed (no such device) and the ONNX Runtime CPU fallback also failed"
                .to_string()
        )
    );
}

#[test]
fn an_unusable_configuration_runs_on_the_cpu() {
    let config = inference("openvino", "gpu");
    let (session, runtime) = create_session(&config, false, None, loads, loads_openvino).unwrap();
    assert_eq!(session, 1);
    assert!(runtime.fallback_reason.unwrap().contains("OpenVINO"));
    let plain = inference("cpu", "cpu");
    let (_, runtime) = create_session(&plain, true, None, loads, loads_openvino).unwrap();
    assert_eq!(runtime.fallback_reason, None);
    assert_eq!(
        create_session(&plain, true, None, fails, loads_openvino).err(),
        Some("no such device".to_string())
    );
}

#[test]
fn an_old_runtime_is_named() {
    assert_eq!(ensure_supported_runtime("1.20.0", 22, true), Ok(()));
    assert_eq!(
        ensure_supported_runtime("1.20.0", 22, false),
        Err(
            "the ONNX Runtime library loaded at startup is version 1.20.0, which is older than \
             the 1.22.x this build of Gaze requires; install a newer ONNX Runtime, or rebuild \
             Gaze against the one you have"
                .to_string()
        )
    );
    assert_eq!(openvino_device("gpu.0"), "GPU.0");
}
