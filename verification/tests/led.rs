//! Infrared emitters and their profiles.

use gaze::led::{
    control_error, find_device, looks_like_face_auth_control, probe_face_auth_profile, IrControl,
    IrDevice, IrLed, IrProfile, IrQuery, ProbeCache, RuntimeControl, FACE_AUTH_LEN,
    FACE_AUTH_OFF_DISABLED, FACE_AUTH_ON_ALT_FRAME, FACE_AUTH_PROBE_MAX_UNIT, FACE_AUTH_SELECTOR,
    GET_CUR, SET_CUR, UVC_CTRL_QUERY,
};
use gaze::profiles::{
    check_profiles, named_ids, parse_filename_ids, parse_profile, process_step, render, Device,
    Emitter, ProfileFile, Step,
};

fn control(query: IrQuery, payload: &[u8]) -> IrControl {
    IrControl {
        unit: 3,
        selector: 2,
        query,
        payload: payload.to_vec(),
    }
}

fn test_device() -> IrDevice {
    IrDevice {
        vid: 0x1234,
        pid: 0x5678,
        name: "Sample IR Camera".to_string(),
        on_sequence: vec![control(IrQuery::SetCur, &[1, 2, 3, 4])],
        off_sequence: vec![control(IrQuery::SetCur, &[0, 0, 0, 0])],
        source: "unit test".to_string(),
        requires_ir_yuy2: false,
    }
}

#[test]
fn for_path_returns_none_when_device_absent() {
    assert!(
        IrLed::for_path("/dev/video-absent-12345", None, &vec![test_device()], None).is_none()
    );
}

#[test]
fn led_keeps_profile_metadata() {
    let led = IrLed {
        node: "/dev/null".to_string(),
        profile: IrProfile::from_static(&test_device()),
    };
    assert_eq!(led.node(), "/dev/null");
    assert_eq!(led.device_name(), "Sample IR Camera");
    assert_eq!(led.profile.source, "unit test");
    assert_eq!(led.profile.on_sequence[0].payload, &[1, 2, 3, 4]);
    assert_eq!(led.profile.off_sequence[0].payload, &[0, 0, 0, 0]);
}

#[test]
fn detects_face_auth_payload_shape() {
    assert!(looks_like_face_auth_control(&FACE_AUTH_OFF_DISABLED));
    assert!(looks_like_face_auth_control(&FACE_AUTH_ON_ALT_FRAME));
    assert!(looks_like_face_auth_control(&[1, 3, 3, 0, 0, 0, 0, 0, 0]));
    assert!(!looks_like_face_auth_control(&[1, 3, 4, 0, 0, 0, 0, 0, 0]));
    assert!(!looks_like_face_auth_control(&[1, 3, 2, 0, 0, 0, 0, 0, 1]));
}

fn led_with(node: &str, on: Vec<RuntimeControl>, off: Vec<RuntimeControl>) -> IrLed {
    IrLed {
        node: node.to_string(),
        profile: IrProfile {
            name: "Test".to_string(),
            on_sequence: on,
            off_sequence: off,
            source: "unit test".to_string(),
        },
    }
}

#[test]
fn the_query_code_matches_the_kernels_iowr_encoding() {
    // _IOWR('u', 0x21, struct uvc_xu_control_query): dir=3, size=16, type='u', nr=0x21.
    let expected = (3 << 30) | (16u64 << 16) | ((b'u' as u64) << 8) | 0x21;
    assert_eq!(UVC_CTRL_QUERY, expected);
    assert_eq!(UVC_CTRL_QUERY, 0xC010_7521);
}

#[test]
fn the_uvc_query_codes_are_the_ones_the_spec_defines() {
    assert_eq!(SET_CUR, 0x01);
    assert_eq!(GET_CUR, 0x81);
}

#[test]
fn the_face_auth_payloads_differ_only_in_the_emitter_mode() {
    assert_eq!(FACE_AUTH_ON_ALT_FRAME.len(), FACE_AUTH_LEN);
    assert_eq!(FACE_AUTH_OFF_DISABLED.len(), FACE_AUTH_LEN);

    for (index, (on, off)) in FACE_AUTH_ON_ALT_FRAME
        .iter()
        .zip(FACE_AUTH_OFF_DISABLED.iter())
        .enumerate()
    {
        if index == 2 {
            assert_ne!(on, off, "byte 2 carries the emitter mode");
        } else {
            assert_eq!(on, off, "byte {index} is shared by both payloads");
        }
    }
    assert_eq!(
        FACE_AUTH_ON_ALT_FRAME[2], 2,
        "2 strobes on alternate frames"
    );
    assert_eq!(FACE_AUTH_OFF_DISABLED[2], 1, "1 disables the emitter");
}

#[test]
fn a_face_auth_probe_rejects_payloads_from_unrelated_controls() {
    assert!(!looks_like_face_auth_control(&[0, 3, 2, 0, 0, 0, 0, 0, 0]));
    assert!(!looks_like_face_auth_control(&[1, 2, 2, 0, 0, 0, 0, 0, 0]));
    assert!(!looks_like_face_auth_control(&[1, 3, 0, 0, 0, 0, 0, 0, 0]));
    assert!(!looks_like_face_auth_control(&[0; FACE_AUTH_LEN]));
    assert!(!looks_like_face_auth_control(&[0xff; FACE_AUTH_LEN]));
}

#[test]
fn a_face_auth_probe_only_walks_units_the_spec_allows() {
    let max_unit = FACE_AUTH_PROBE_MAX_UNIT;
    assert!(max_unit >= 1);
    assert!(max_unit <= 31, "UVC entity ids are 5 bits wide");
    assert_eq!(FACE_AUTH_SELECTOR, 0x06);
}

#[test]
fn a_runtime_control_keeps_everything_the_static_control_carried() {
    let converted = RuntimeControl::from_static(&test_device().on_sequence[0]);

    assert_eq!(converted, RuntimeControl::set(3, 2, &[1, 2, 3, 4]));
    assert_eq!(converted.query, IrQuery::SetCur);
    assert_eq!(converted.payload, vec![1, 2, 3, 4]);
}

#[test]
fn a_get_cur_step_does_not_silently_become_a_set_cur() {
    let probe_bytes = [0; 9];
    let probe = IrControl {
        unit: 7,
        selector: 6,
        query: IrQuery::GetCur,
        payload: probe_bytes.to_vec(),
    };

    let converted = RuntimeControl::from_static(&probe);

    assert_eq!(converted.query, IrQuery::GetCur);
    assert_eq!(converted.query_code(), GET_CUR);
    assert_ne!(converted, RuntimeControl::set(7, 6, &probe_bytes));
}

#[test]
fn a_profile_carries_both_sequences_over_from_its_static_device() {
    let profile = IrProfile::from_static(&test_device());

    assert_eq!(profile.name, "Sample IR Camera");
    assert_eq!(profile.source, "unit test");
    assert_eq!(profile.on_sequence.len(), 1);
    assert_eq!(profile.off_sequence.len(), 1);
    assert_eq!(profile.on_sequence[0].unit, 3);
    assert_eq!(profile.on_sequence[0].selector, 2);
}

/// Fails as opening a node that is not there does.
fn open_node(node: &str) -> Result<String, String> {
    Err(format!("failed to open {node}: No such file or directory"))
}

fn never_sent<D>(_: D, _: &RuntimeControl) -> Result<D, String> {
    Err("Inappropriate ioctl for device (os error 25)".to_string())
}

#[test]
fn an_empty_sequence_short_circuits_before_the_device_is_opened() {
    // A profile with nothing to send must not fail just because its node is gone.
    let led = led_with("/dev/gaze-no-such-node", Vec::new(), Vec::new());

    led.set(true, open_node, never_sent)
        .expect("an empty on-sequence is a no-op");
    led.set(false, open_node, never_sent)
        .expect("an empty off-sequence is a no-op");
    let opened = std::cell::Cell::new(false);
    let open = |node: &str| -> Result<String, String> {
        opened.set(true);
        Ok(node.to_string())
    };
    assert_eq!(led.set(true, open, never_sent), Ok(()));
    assert!(!opened.get());
}

#[test]
fn a_sequence_against_a_missing_node_reports_the_open_failure() {
    let led = led_with(
        "/dev/gaze-no-such-node",
        vec![RuntimeControl::set(3, 2, &[1])],
        vec![RuntimeControl::set(3, 2, &[0])],
    );

    assert!(led.set(true, open_node, never_sent).is_err());
    assert!(led.set(false, open_node, never_sent).is_err());
}

#[test]
fn an_ioctl_failure_names_the_node_and_the_control_that_failed() {
    let led = led_with(
        "/dev/null",
        vec![RuntimeControl::set(0x0c, 0x06, &[0; 9])],
        Vec::new(),
    );
    let open = |node: &str| -> Result<String, String> { Ok(node.to_string()) };

    let message = led
        .set(true, open, never_sent)
        .expect_err("/dev/null is not a UVC device");
    assert!(message.contains("/dev/null"), "{message}");
    assert!(message.contains("unit=0x0c"), "{message}");
    assert!(message.contains("selector=0x06"), "{message}");
    assert!(message.contains("size=9"), "{message}");
    assert_eq!(
        message,
        "UVC SetCur control ioctl on /dev/null failed for unit=0x0c selector=0x06 size=9: \
         Inappropriate ioctl for device (os error 25)"
    );
    assert_eq!(
        message,
        control_error(
            "/dev/null",
            &RuntimeControl::set(0x0c, 0x06, &[0; 9]),
            "Inappropriate ioctl for device (os error 25)",
        )
    );
}

#[test]
fn controls_are_sent_in_turn_up_to_the_first_that_fails() {
    let led = led_with(
        "/dev/video2",
        (1..=4u8).map(|unit| RuntimeControl::set(unit, 6, &[unit])).collect(),
        Vec::new(),
    );
    let sent = std::cell::RefCell::new(Vec::new());
    let open = |node: &str| -> Result<String, String> { Ok(node.to_string()) };
    let send = |device: String, step: &RuntimeControl| -> Result<String, String> {
        assert_eq!(device, "/dev/video2");
        sent.borrow_mut().push(step.unit);
        if step.unit == 3 {
            Err("stalled".to_string())
        } else {
            Ok(device)
        }
    };
    assert_eq!(
        led.set(true, open, send),
        Err(
            "UVC SetCur control ioctl on /dev/video2 failed for unit=0x03 selector=0x06 size=1: \
             stalled"
                .to_string()
        )
    );
    assert_eq!(sent.borrow().as_slice(), [1, 2, 3]);
    assert_eq!(led.set(false, open, never_sent), Ok(()));
}

#[test]
fn for_path_ignores_a_path_that_is_not_a_video_node() {
    let devices = vec![test_device()];
    assert!(IrLed::for_path("/dev/null", None, &devices, None).is_none());
    assert!(IrLed::for_path("", None, &devices, None).is_none());
}

#[test]
fn for_path_prefers_the_table_to_a_probe() {
    let devices = vec![test_device()];
    let probed = || {
        probe_face_auth_profile(0x1234, 0x5678, &vec![None, Some(FACE_AUTH_OFF_DISABLED)])
    };
    let known = IrLed::for_path("/dev/video2", Some((0x1234, 0x5678)), &devices, probed());
    assert_eq!(known.unwrap().device_name(), "Sample IR Camera");
    let unknown = IrLed::for_path("/dev/video2", Some((1, 2)), &devices, probed()).unwrap();
    assert_eq!(unknown.node(), "/dev/video2");
    assert_eq!(
        unknown.device_name(),
        "USB 1234:5678 Microsoft Face Authentication UVC control"
    );
    assert!(IrLed::for_path("/dev/video2", Some((1, 2)), &devices, None).is_none());
    assert_eq!(find_device(&devices, 0x1234, 0x5678).unwrap().vid, 0x1234);
}

#[test]
fn a_probe_takes_the_first_unit_that_answers() {
    let answers = vec![
        None,
        Some([0; 9]),
        Some(FACE_AUTH_OFF_DISABLED),
        Some(FACE_AUTH_ON_ALT_FRAME),
    ];
    let profile = probe_face_auth_profile(0x0bda, 0x58c2, &answers).unwrap();
    assert_eq!(
        profile.on_sequence,
        vec![RuntimeControl::set(3, 0x06, &FACE_AUTH_ON_ALT_FRAME)]
    );
    assert_eq!(
        profile.off_sequence,
        vec![RuntimeControl::set(3, 0x06, &FACE_AUTH_OFF_DISABLED)]
    );
    assert!(probe_face_auth_profile(1, 2, &vec![None; 31]).is_none());
}

#[test]
fn a_node_is_probed_once_unless_the_probe_failed() {
    let mut cache = ProbeCache::new();
    let found = || probe_face_auth_profile(1, 2, &vec![Some(FACE_AUTH_OFF_DISABLED)]);
    assert!(cache.needs_probe("/dev/video0", true));
    assert!(cache
        .cached_face_auth_profile("/dev/video0", true, Err("busy".to_string()))
        .is_none());
    assert!(cache.needs_probe("/dev/video0", true));
    assert_eq!(
        cache.cached_face_auth_profile("/dev/video0", true, Ok(found())),
        found()
    );
    assert!(!cache.needs_probe("/dev/video0", true));
    assert_eq!(
        cache.cached_face_auth_profile("/dev/video0", true, Ok(None)),
        found()
    );
    assert!(!cache.needs_probe("/dev/video4", false));
    assert!(cache
        .cached_face_auth_profile("/dev/video4", false, Ok(found()))
        .is_none());
    assert!(cache
        .cached_face_auth_profile("/dev/video4", true, Ok(found()))
        .is_none());
}

fn profile_file(emitter: Emitter) -> ProfileFile {
    ProfileFile {
        device: Device {
            vendor_id: 0x0bda,
            product_id: 0x58c2,
            name: "Realtek \"IR\"".to_string(),
            source: None,
            requires_ir_yuy2: true,
        },
        emitter,
    }
}

fn simple_emitter() -> Emitter {
    Emitter {
        unit: Some(4),
        selector: Some(6),
        control_bytes: Some(vec![1, 255]),
        off_control_bytes: None,
        on: None,
        off: None,
    }
}

fn step(query: &str, payload: Option<Vec<u8>>, size: Option<usize>) -> Step {
    Step {
        unit: 1,
        selector: 2,
        query: query.to_string(),
        control_bytes: None,
        payload,
        size,
    }
}

#[test]
fn profile_names_give_the_ids() {
    assert_eq!(parse_filename_ids("0bda-58c2"), Some((0x0bda, 0x58c2)));
    assert_eq!(parse_filename_ids("0bda_58c2"), None);
    assert_eq!(parse_filename_ids("bda-58c2"), None);
    assert_eq!(parse_filename_ids("zzzz-58c2"), None);
}

#[test]
fn a_simple_profile_switches_off_with_zeros() {
    let profile = parse_profile("0bda-58c2", "p.toml", profile_file(simple_emitter()))
        .ok()
        .unwrap();
    assert_eq!(profile.ident, "DEVICE_0BDA_58C2");
    assert_eq!(profile.device.source, "gaze-core profile");
    assert_eq!(profile.device.on_sequence[0].payload, vec![1, 255]);
    assert_eq!(profile.device.off_sequence[0].payload, vec![0, 0]);
    let text = render(&vec![profile]);
    assert_eq!(
        text,
        "// @generated by gaze-core/build.rs\n\
         // Do not edit directly; add ir-profiles/*.toml instead.\n\n\
         const DEVICE_0BDA_58C2_ON_0_BYTES: &[u8] = &[0x01, 0xff];\n\
         const DEVICE_0BDA_58C2_ON: &[IrControl] = &[\n    \
         IrControl { unit: 0x04, selector: 0x06, query: IrQuery::SetCur, payload: DEVICE_0BDA_58C2_ON_0_BYTES },\n\
         ];\n\n\
         const DEVICE_0BDA_58C2_OFF_0_BYTES: &[u8] = &[0x00, 0x00];\n\
         const DEVICE_0BDA_58C2_OFF: &[IrControl] = &[\n    \
         IrControl { unit: 0x04, selector: 0x06, query: IrQuery::SetCur, payload: DEVICE_0BDA_58C2_OFF_0_BYTES },\n\
         ];\n\n\
         pub const IR_DEVICES: &[IrDevice] = &[\n    \
         IrDevice {\n        \
         vid: 0x0bda,\n        \
         pid: 0x58c2,\n        \
         name: \"Realtek \\\"IR\\\"\",\n        \
         on_sequence: DEVICE_0BDA_58C2_ON,\n        \
         off_sequence: DEVICE_0BDA_58C2_OFF,\n        \
         source: \"gaze-core profile\",\n        \
         requires_ir_yuy2: true,\n    \
         },\n\
         ];\n\n"
    );
}

#[test]
fn profile_mistakes_are_named() {
    let error = |stem: &str, emitter: Emitter| {
        parse_profile(stem, "p.toml", profile_file(emitter)).err().unwrap()
    };
    assert_eq!(
        error("nonsense", simple_emitter()),
        "profile file must be named vvvv-pppp.toml: p.toml"
    );
    assert_eq!(
        error("0bda-0001", simple_emitter()),
        "p.toml has device 0bda:58c2, but file name is 0bda:0001"
    );
    let mut emitter = simple_emitter();
    emitter.unit = None;
    assert_eq!(error("0bda-58c2", emitter), "p.toml missing emitter.unit");
    let mut emitter = simple_emitter();
    emitter.selector = None;
    assert_eq!(error("0bda-58c2", emitter), "p.toml missing emitter.selector");
    let mut emitter = simple_emitter();
    emitter.control_bytes = None;
    assert_eq!(
        error("0bda-58c2", emitter),
        "p.toml missing emitter.control_bytes"
    );
    let mut emitter = simple_emitter();
    emitter.on = Some(vec![step("get", None, Some(2))]);
    assert_eq!(
        error("0bda-58c2", emitter),
        "p.toml uses emitter.on but has no emitter.off"
    );
    let mut emitter = simple_emitter();
    emitter.on = Some(vec![step("get", None, None)]);
    assert_eq!(
        error("0bda-58c2", emitter),
        "p.toml: step missing control_bytes, payload, or size"
    );
}

#[test]
fn steps_are_read_with_their_query() {
    let read = process_step(&step("GET_CUR", None, Some(2)), "p").unwrap_or_else(|e| panic!("{e}"));
    assert_eq!(read.query, IrQuery::GetCur);
    assert_eq!(read.payload, vec![0, 0]);
    let set = process_step(&step("set_cur", Some(vec![7]), Some(2)), "p")
        .unwrap_or_else(|e| panic!("{e}"));
    assert_eq!(set.query, IrQuery::SetCur);
    assert_eq!(set.payload, vec![7]);
}

#[test]
fn one_profile_per_device() {
    let profile = || {
        parse_profile("0bda-58c2", "p.toml", profile_file(simple_emitter()))
            .ok()
            .unwrap()
    };
    assert_eq!(check_profiles(&vec![profile()]), Ok(()));
    assert_eq!(
        check_profiles(&vec![profile(), profile()]),
        Err("duplicate IR profile for 0bda:58c2".to_string())
    );
}

#[test]
fn a_profile_is_named_after_its_device() {
    assert_eq!(named_ids("0bda-58c2", "p.toml"), Ok((0x0bda, 0x58c2)));
    for stem in ["0bda58c2", "bda-58c2", "0bda-58cz", "0bda-58c2-1"] {
        assert_eq!(
            named_ids(stem, "p.toml"),
            Err("profile file must be named vvvv-pppp.toml: p.toml".to_string())
        );
    }
}
