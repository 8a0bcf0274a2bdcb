//! Camera sources, nodes and lists.

use gaze::camera::devices::{
    has_color_caps, is_mono_format, requires_forced_ir_yuy2, select_usb_node, CapsStructure,
    DeviceProperties, NodeIds, NodeLink, Scan, VideoDevice, VideoNodeInfo,
};
use gaze::camera::listing::{
    enumerate_cameras, enumerate_ir_cameras, ir_choices, is_listed_source, label_camera_entries,
    source_index, CameraEntry, IR_NONE_DISPLAY_NAME,
};
use gaze::camera::nodes::{
    first_v4l2_node, node_from_pipewire_target, nodes_for_by_path, resolve_usb_video_node,
    v4l2_by_path_for_target, v4l2_nodes_with_color,
};
use gaze::camera::opening::{
    bind_pipewire_fd, bus_error_detail, camera_pipeline, current_pipewire_uid, device_is_busy,
    open_plan, open_retry, pipewire_socket_path, start_error, v4l2_fallback_for, BusMessage,
    PollEnd, Stream, V4l2Fallback,
};
use gaze::camera::{
    capture_must_serialize, classify_source, parse_usb_spec, preferred_capture_source,
    preview_can_be_shared, resolve_configured_sources, resolve_node, resolve_node_for,
    SourceElement,
};
use gaze::config::CameraConfig;
use gaze::led::IrDevice;

fn known_device(vid: u16, pid: u16, requires_ir_yuy2: bool) -> IrDevice {
    IrDevice {
        vid,
        pid,
        name: "Known".to_string(),
        on_sequence: Vec::new(),
        off_sequence: Vec::new(),
        source: "table".to_string(),
        requires_ir_yuy2,
    }
}

fn known_devices() -> Vec<IrDevice> {
    vec![
        known_device(0x0bda, 0x5767, true),
        known_device(0x0bda, 0x58c2, true),
        known_device(0x046d, 0x085e, false),
    ]
}

fn no_devices() -> Scan {
    Scan {
        devices: Some(Vec::new()),
        links: Vec::new(),
        ids: Vec::new(),
    }
}

#[test]
fn pipewire_elements_take_the_bound_descriptor() {
    assert_eq!(bind_pipewire_fd("pipewiresrc", 7), "pipewiresrc fd=7");
    assert_eq!(
        bind_pipewire_fd("pipewiresrc target-object=cam1", 7),
        "pipewiresrc target-object=cam1 fd=7"
    );
}

#[test]
fn a_caller_supplied_descriptor_is_not_doubled() {
    assert_eq!(bind_pipewire_fd("pipewiresrc fd=5", 7), "pipewiresrc fd=5");
}

#[test]
fn a_held_device_is_named_as_busy() {
    assert!(device_is_busy(
        "Could not open device: Device or resource busy"
    ));
    assert!(device_is_busy("v4l2 returned EBUSY"));
    assert!(!device_is_busy("No such file or directory"));
}

#[test]
fn non_pipewire_elements_are_left_alone() {
    // A V4L2 node has no PipeWire connection to inherit, and `fd=` means something else
    // entirely on other elements.
    assert_eq!(
        bind_pipewire_fd("v4l2src device=/dev/video0", 7),
        "v4l2src device=/dev/video0"
    );
    assert_eq!(bind_pipewire_fd("videotestsrc", 7), "videotestsrc");
    // Guard against matching an element that merely starts with the same letters.
    assert_eq!(bind_pipewire_fd("pipewiresrcfoo", 7), "pipewiresrcfoo");
}

#[test]
fn only_an_untargeted_pipewire_source_falls_back_to_any_camera() {
    assert_eq!(v4l2_fallback_for("pipewiresrc"), V4l2Fallback::AnyDevice);
    assert_eq!(
        v4l2_fallback_for("v4l2src device=/dev/video0"),
        V4l2Fallback::Nothing
    );
    assert_eq!(v4l2_fallback_for("pipewiresrcfoo"), V4l2Fallback::Nothing);
    // A PipeWire source with no target still means "any camera", but it is not the bare
    // element, so it takes the field-parsing path.
    assert_eq!(v4l2_fallback_for("pipewiresrc fd=7"), V4l2Fallback::Nothing);
}

#[test]
fn a_pinned_target_falls_back_only_to_its_own_node() {
    assert_eq!(
        v4l2_fallback_for("pipewiresrc target-object=cam1"),
        V4l2Fallback::SameNode("cam1".to_string())
    );
    // The quoting and the trailing fields belong to the element, not to the target name.
    assert_eq!(
        v4l2_fallback_for("pipewiresrc target-object=\"cam1\" fd=7"),
        V4l2Fallback::SameNode("cam1".to_string())
    );
    assert_eq!(
        v4l2_fallback_for("pipewiresrc target-object=v4l2_input.pci-0000_00_14.0-usb-0_7_1.0"),
        V4l2Fallback::SameNode("v4l2_input.pci-0000_00_14.0-usb-0_7_1.0".to_string())
    );
    assert_eq!(
        v4l2_fallback_for("pipewiresrc target-object="),
        V4l2Fallback::Nothing
    );
}

#[test]
fn a_pipewire_target_names_the_udev_path_of_its_node() {
    assert_eq!(
        v4l2_by_path_for_target("v4l2_input.pci-0000_00_14.0-usb-0_7_1.0").as_deref(),
        Some("pci-0000:00:14.0-usb-0:7:1.0")
    );
    // Only V4L2 nodes are linked by path; anything else has no node to fall back to.
    assert_eq!(v4l2_by_path_for_target("alsa_input.pci-0000_00_1f.3"), None);
    assert_eq!(v4l2_by_path_for_target("51"), None);
    assert_eq!(v4l2_by_path_for_target("v4l2_input."), None);
}

#[test]
fn a_failing_stream_keeps_the_reason_it_ended() {
    // A failing element pushes EOS as well as posting the error, so the reason survives
    // only if the bus is read first.
    let mut stream = Stream::new();
    let messages = vec![
        BusMessage::Other,
        BusMessage::Error {
            error: "Failed after iterations as requested".to_string(),
            debug: Some("gstidentity.c(815)".to_string()),
        },
        BusMessage::Eos,
    ];
    assert_eq!(stream.no_frame(&messages, true, true), PollEnd::Ended);

    let reason = stream
        .take_stream_error()
        .expect("a pipeline error must be kept");
    assert!(
        reason.contains("Failed after iterations as requested"),
        "unexpected reason: {reason}"
    );
    assert!(
        stream.take_stream_error().is_none(),
        "the reason is taken, so it is reported once"
    );
}

#[test]
fn a_clean_end_of_stream_leaves_no_reason() {
    let mut stream = Stream::new();
    assert_eq!(
        stream.no_frame(&vec![BusMessage::Other, BusMessage::Eos], false, true),
        PollEnd::Ended
    );
    assert!(
        stream.take_stream_error().is_none(),
        "an ordinary EOS is not a failure"
    );
}

#[test]
fn a_pinned_thread_keeps_its_session_when_the_default_moves() {
    // A capture thread outlives the claim that started it, and the next claim rebinds the
    // process-wide default. What the thread opens must not follow it.
    let pinned = Some(Some(1000));
    assert_eq!(current_pipewire_uid(pinned, None), Some(1000));
    assert_eq!(current_pipewire_uid(pinned, Some(1001)), Some(1000));

    // An unpinned thread still follows the default, which is what a claim sets it for.
    assert_eq!(current_pipewire_uid(None, Some(1001)), Some(1001));
}

fn entry(display_name: &str, target: &str, node: Option<&str>) -> CameraEntry {
    CameraEntry {
        display_name: display_name.to_string(),
        target: format!("pipewiresrc target-object={target}"),
        node: node.map(str::to_string),
    }
}

#[test]
fn shared_display_names_are_labelled_with_their_v4l2_node() {
    let labelled = label_camera_entries(vec![
        entry("ASUS 5M webcam (V4L2)", "cam0", Some("/dev/video0")),
        entry("ASUS 5M webcam (V4L2)", "cam2", Some("/dev/video2")),
    ]);

    assert_eq!(
        labelled
            .iter()
            .map(|(name, _)| name.as_str())
            .collect::<Vec<_>>(),
        vec![
            "ASUS 5M webcam (V4L2) (/dev/video0)",
            "ASUS 5M webcam (V4L2) (/dev/video2)"
        ]
    );
    assert_eq!(labelled[1].1, "pipewiresrc target-object=cam2");
}

#[test]
fn a_unique_display_name_is_left_alone() {
    let labelled = label_camera_entries(vec![
        entry("Integrated Webcam", "cam0", Some("/dev/video0")),
        entry("IR Camera", "cam2", Some("/dev/video2")),
    ]);

    assert_eq!(labelled[0].0, "Integrated Webcam");
    assert_eq!(labelled[1].0, "IR Camera");
}

#[test]
fn shared_display_names_without_a_node_stay_as_they_are() {
    let labelled = label_camera_entries(vec![
        entry("ASUS 5M webcam (V4L2)", "cam0", None),
        entry("ASUS 5M webcam (V4L2)", "cam2", Some("/dev/video2")),
    ]);

    assert_eq!(labelled[0].0, "ASUS 5M webcam (V4L2)");
    assert_eq!(labelled[1].0, "ASUS 5M webcam (V4L2) (/dev/video2)");
}

#[test]
fn realtek_ir_pipeline_forces_required_uncompressed_mode() {
    let pipeline = camera_pipeline("v4l2src device=/dev/video0", true);
    assert!(pipeline.contains("video/x-raw,format=YUY2,width=640,height=480"));
    assert!(!pipeline.contains("image/jpeg"));

    let rgb_pipeline = camera_pipeline("v4l2src device=/dev/video0", false);
    assert!(rgb_pipeline.contains("image/jpeg"));
}

#[test]
fn forced_ir_yuy2_follows_the_device_profile_flag() {
    // Both single-node Realtek modules are flagged in ir-profiles/*.toml.
    assert!(requires_forced_ir_yuy2(&known_devices(), 0x0bda, 0x5767, false));
    assert!(requires_forced_ir_yuy2(&known_devices(), 0x0bda, 0x58c2, false));

    // The quirk is IR-only, and never applies to unflagged or unknown devices.
    assert!(!requires_forced_ir_yuy2(&known_devices(), 0x0bda, 0x58c2, true));
    assert!(!requires_forced_ir_yuy2(&known_devices(), 0x046d, 0x085e, false));
    assert!(!requires_forced_ir_yuy2(&known_devices(), 0xdead, 0xbeef, false));
}

#[test]
fn configured_sources_leave_ir_empty_when_no_ir_configured() {
    let cameras = CameraConfig {
        rgb: "primary".to_string(),
        ir: String::new(),
        emitter_enabled: false,
            parallel_capture: "never".to_string(),
        dark_luma_threshold: 30,
    };
    let sources = resolve_configured_sources(&cameras, &no_devices(), &known_devices());
    assert_eq!(sources.rgb, "primary");
    assert_eq!(sources.ir, "");
    assert_eq!(sources.ir_node, "");
    assert_eq!(
        preferred_capture_source(&cameras),
        ("primary".to_string(), false)
    );
}

fn cameras_with(rgb: &str, ir: &str) -> CameraConfig {
    CameraConfig {
        rgb: rgb.to_string(),
        ir: ir.to_string(),
        emitter_enabled: false,
            parallel_capture: "never".to_string(),
        dark_luma_threshold: 30,
    }
}

#[test]
fn a_pipewire_camera_can_back_two_previews_at_once() {
    assert!(preview_can_be_shared(&cameras_with("primary", "")));
    assert!(preview_can_be_shared(&cameras_with(
        "pipewiresrc target-object=v4l2_input.pci-0000:00:14.0-usb-0:5:1.0",
        ""
    )));
}

#[test]
fn a_v4l2_camera_cannot_be_streamed_twice() {
    assert!(!preview_can_be_shared(&cameras_with("/dev/video0", "")));
    assert!(!preview_can_be_shared(&cameras_with("usb:04f2:b6d9", "")));
}

#[test]
fn a_dual_spectrum_setup_needs_the_rgb_camera_released_between_steps() {
    assert!(!preview_can_be_shared(&cameras_with(
        "primary",
        "/dev/video2"
    )));
}

#[test]
fn an_ir_only_setup_is_not_shareable() {
    assert!(!preview_can_be_shared(&cameras_with("", "/dev/video2")));
}

#[test]
fn configured_sources_resolve_an_ir_device_node() {
    let cameras = CameraConfig {
        rgb: "primary".to_string(),
        ir: "/dev/video2".to_string(),
        emitter_enabled: true,
            parallel_capture: "never".to_string(),
        dark_luma_threshold: 30,
    };
    let sources = resolve_configured_sources(&cameras, &no_devices(), &known_devices());
    assert_eq!(sources.rgb, "primary");
    assert_eq!(sources.ir, "/dev/video2");
    assert_eq!(sources.ir_node, "/dev/video2");
}

#[test]
fn preferred_capture_source_falls_back_to_ir_when_rgb_is_unset() {
    let cameras = CameraConfig {
        rgb: String::new(),
        ir: "/dev/video2".to_string(),
        emitter_enabled: true,
            parallel_capture: "never".to_string(),
        dark_luma_threshold: 30,
    };
    assert_eq!(
        preferred_capture_source(&cameras),
        ("/dev/video2".to_string(), true)
    );
}

#[test]
fn classify_source_maps_every_supported_form() {
    assert_eq!(
        classify_source("primary", true).unwrap(),
        SourceElement::Element("pipewiresrc".to_string())
    );
    assert_eq!(
        classify_source("/dev/video0", true).unwrap(),
        SourceElement::Element("v4l2src device=/dev/video0".to_string())
    );
    assert_eq!(
        classify_source("/dev/video2", false).unwrap(),
        SourceElement::Element("v4l2src device=/dev/video2".to_string())
    );
    assert_eq!(
        classify_source("usb:046d:085e", true).unwrap(),
        SourceElement::ResolveUsb {
            vid: 0x046d,
            pid: 0x085e,
            want_color: true,
        }
    );
    assert_eq!(
        classify_source("usb:046d:085e", false).unwrap(),
        SourceElement::ResolveUsb {
            vid: 0x046d,
            pid: 0x085e,
            want_color: false,
        }
    );
    assert_eq!(
        classify_source("v4l2src device=/dev/video0", true).unwrap(),
        SourceElement::Element("v4l2src device=/dev/video0".to_string())
    );
}

#[test]
fn classify_source_rejects_malformed_values() {
    assert!(classify_source("", true).is_err());
    assert!(classify_source("/dev/video", true).is_err());
    assert!(classify_source("/dev/video2 ! fakesink", true).is_err());
    assert!(classify_source("usb:046d", true).is_err());
    assert!(classify_source("usb:zzzz:085e", true).is_err());
}

#[test]
fn open_surfaces_malformed_sources() {
    let scan = no_devices();
    assert!(open_plan("/dev/video", true, &scan, &known_devices(), None).is_err());
    assert!(open_plan("/dev/video2 ! fakesink", false, &scan, &known_devices(), None).is_err());
    assert!(open_plan("usb:046d", true, &scan, &known_devices(), None).is_err());
}

#[test]
fn parse_usb_spec_reads_hex_vid_pid() {
    assert_eq!(parse_usb_spec("usb:046d:085e"), Some((0x046d, 0x085e)));
    assert_eq!(parse_usb_spec("usb:04F2:B67C"), Some((0x04f2, 0xb67c)));
    assert_eq!(parse_usb_spec("pci:046d:085e"), None);
    assert_eq!(parse_usb_spec("usb:046d"), None);
    assert_eq!(parse_usb_spec("usb:zzzz:085e"), None);
    assert_eq!(parse_usb_spec("primary"), None);
}

#[test]
fn select_usb_node_disambiguates_color_and_mono() {
    // Brio-style single-function UVC: one VID:PID exposes a color node and a
    // mono IR node. Also a second, color-only device.
    let nodes = vec![
        VideoNodeInfo {
            node: "/dev/video0".to_string(),
            vid: 0x046d,
            pid: 0x085e,
            is_color: true,
        },
        VideoNodeInfo {
            node: "/dev/video2".to_string(),
            vid: 0x046d,
            pid: 0x085e,
            is_color: false,
        },
        VideoNodeInfo {
            node: "/dev/video4".to_string(),
            vid: 0x1234,
            pid: 0x5678,
            is_color: true,
        },
    ];
    assert_eq!(
        select_usb_node(&nodes, 0x046d, 0x085e, true, &known_devices()),
        Some("/dev/video0".to_string())
    );
    assert_eq!(
        select_usb_node(&nodes, 0x046d, 0x085e, false, &known_devices()),
        Some("/dev/video2".to_string())
    );
    // No mono node on a color-only device, and unknown ids resolve to nothing.
    assert_eq!(select_usb_node(&nodes, 0x1234, 0x5678, false, &known_devices()), None);
    assert_eq!(select_usb_node(&nodes, 0xdead, 0xbeef, true, &known_devices()), None);
}

#[test]
fn select_usb_node_prefers_lowest_numbered_node() {
    let nodes = vec![
        VideoNodeInfo {
            node: "/dev/video10".to_string(),
            vid: 0x046d,
            pid: 0x085e,
            is_color: true,
        },
        VideoNodeInfo {
            node: "/dev/video2".to_string(),
            vid: 0x046d,
            pid: 0x085e,
            is_color: true,
        },
    ];
    assert_eq!(
        select_usb_node(&nodes, 0x046d, 0x085e, true, &known_devices()),
        Some("/dev/video2".to_string())
    );
}

#[test]
fn select_usb_node_reuses_single_node_for_known_ir_profile() {
    let nodes = vec![VideoNodeInfo {
        node: "/dev/video6".to_string(),
        vid: 0x0bda,
        pid: 0x58c2,
        is_color: true,
    }];

    assert_eq!(
        select_usb_node(&nodes, 0x0bda, 0x58c2, false, &known_devices()),
        Some("/dev/video6".to_string())
    );
}

#[test]
fn configured_sources_leave_the_node_empty_for_a_pipewire_ir_source() {
    let cameras = CameraConfig {
        rgb: "primary".to_string(),
        ir: "pipewiresrc target-object=device-name".to_string(),
        emitter_enabled: true,
            parallel_capture: "never".to_string(),
        dark_luma_threshold: 30,
    };
    let sources = resolve_configured_sources(&cameras, &no_devices(), &known_devices());
    assert_eq!(sources.ir, "pipewiresrc target-object=device-name");
    assert_eq!(sources.ir_node, "");
    assert!(
        sources.serial_capture,
        "an unresolvable node must keep the safe serial capture path"
    );
}

#[test]
fn distinct_capture_nodes_may_stream_concurrently() {
    assert!(!capture_must_serialize(
        Some("/dev/video0"),
        Some("/dev/video2")
    ));
}

#[test]
fn a_shared_capture_node_must_stream_one_spectrum_at_a_time() {
    // Single-function Windows Hello modules resolve both spectra to the same node.
    assert!(capture_must_serialize(
        Some("/dev/video0"),
        Some("/dev/video0")
    ));
}

#[test]
fn an_unresolvable_capture_node_falls_back_to_serial() {
    // A bare PipeWire `primary` or a custom pipeline names no node, so the safe
    // assumption is that it might be the very device IR is about to open.
    assert!(capture_must_serialize(None, Some("/dev/video2")));
    assert!(capture_must_serialize(Some("/dev/video0"), None));
    assert!(capture_must_serialize(None, None));
}

#[test]
fn mono_format_detection_is_case_and_whitespace_insensitive() {
    for format in [
        "GRAY8", " gray16 ", "GREY", "grey12", "R8", "r16", "Y8", " y16 ",
    ] {
        assert!(is_mono_format(format), "{format} should be mono");
    }

    for format in ["RGB", "BGR", "RGBA", "YUY2", "NV12", "DMA_DRM", ""] {
        assert!(!is_mono_format(format), "{format} should be color/unknown");
    }
}

fn sample_options() -> Vec<(String, String)> {
    vec![
        (IR_NONE_DISPLAY_NAME.to_string(), String::new()),
        ("Integrated IR".to_string(), "/dev/video2".to_string()),
    ]
}

#[test]
fn source_index_resolves_configured_targets() {
    let options = sample_options();
    assert_eq!(source_index(&options, ""), 0);
    assert_eq!(source_index(&options, "/dev/video2"), 1);
}

#[test]
fn source_index_falls_back_for_unlisted_targets() {
    let options = sample_options();
    assert!(!is_listed_source(&options, "/dev/video99"));
    assert_eq!(source_index(&options, "/dev/video99"), 0);
}

fn caps(name: &str, format: Option<&str>, drm_format: Option<&str>) -> CapsStructure {
    CapsStructure {
        name: name.to_string(),
        format: format.map(str::to_string),
        drm_format: drm_format.map(str::to_string),
    }
}

fn device(name: &str, target: &str, node: &str, formats: &[&str]) -> VideoDevice {
    VideoDevice {
        display_name: name.to_string(),
        properties: Some(DeviceProperties {
            pipewire: true,
            node_name: Some(target.to_string()),
            object_serial: Some("51".to_string()),
            object_id: None,
            object_path: None,
            v4l2_path: Some(node.to_string()),
            device_path: None,
        }),
        caps: Some(
            formats
                .iter()
                .map(|format| caps("video/x-raw", Some(format), None))
                .collect(),
        ),
    }
}

fn ids(node: &str, vid: u16, pid: u16) -> NodeIds {
    NodeIds {
        node: node.to_string(),
        vid,
        pid,
    }
}

fn link(name: &str, node: &str) -> NodeLink {
    NodeLink {
        name: name.to_string(),
        node: node.to_string(),
    }
}

/// A laptop with a colour and an infrared camera of one USB device.
fn laptop() -> Scan {
    Scan {
        devices: Some(vec![
            device("IR Camera", "v4l2_input.pci-0_2", "/dev/video10", &["GRAY8"]),
            device("Webcam", "v4l2_input.pci-0_1", "/dev/video2", &["YUY2"]),
            device("Webcam again", "other", "/dev/video2", &["GRAY8"]),
        ]),
        links: vec![
            link("pci-0:1-video-index1", "/dev/video3"),
            link("pci-0:1-video-index0", "/dev/video2"),
            link("pci-0:2-video-index0", "/dev/video10"),
            link("pci-0:2-video-indexx", "/dev/video99"),
        ],
        ids: vec![
            ids("/dev/video2", 0x04f2, 0xb6d9),
            ids("/dev/video10", 0x04f2, 0xb6d9),
        ],
    }
}

#[test]
fn caps_decide_the_spectrum() {
    let mut camera = device("c", "t", "/dev/video0", &["GRAY8", "GRAY16_LE"]);
    assert!(!has_color_caps(&camera));
    camera.caps = Some(vec![caps("video/x-raw", Some("DMA_DRM"), Some("R8"))]);
    assert!(!has_color_caps(&camera));
    camera.caps = Some(vec![caps("video/x-raw", Some("DMA_DRM"), None)]);
    assert!(has_color_caps(&camera));
    camera.caps = Some(vec![
        caps("video/x-raw", Some("GRAY8"), None),
        caps("image/jpeg", None, None),
    ]);
    assert!(has_color_caps(&camera));
    camera.caps = Some(vec![caps("video/x-raw", None, None)]);
    assert!(has_color_caps(&camera));
    camera.caps = Some(vec![caps("audio/x-raw", Some("GRAY8"), None)]);
    assert!(has_color_caps(&camera));
    camera.caps = None;
    assert!(has_color_caps(&camera));
}

#[test]
fn nodes_come_lowest_first_and_once() {
    let mut scan = laptop();
    assert_eq!(v4l2_nodes_with_color(&scan, true), vec!["/dev/video2"]);
    assert_eq!(v4l2_nodes_with_color(&scan, false), vec!["/dev/video10"]);
    scan.devices.as_mut().unwrap().push(device(
        "Second",
        "v4l2_input.x",
        "/dev/video1",
        &["YUY2"],
    ));
    scan.devices.as_mut().unwrap().push(device(
        "Unnumbered",
        "v4l2_input.y",
        "/dev/videofront",
        &["YUY2"],
    ));
    assert_eq!(
        v4l2_nodes_with_color(&scan, true),
        vec!["/dev/video1", "/dev/video2", "/dev/videofront"]
    );
    assert_eq!(first_v4l2_node(&scan, true).as_deref(), Some("/dev/video1"));
    scan.devices = None;
    assert!(v4l2_nodes_with_color(&scan, true).is_empty());
}

#[test]
fn usb_ids_resolve_to_the_node_of_the_spectrum() {
    let scan = laptop();
    let known = known_devices();
    assert_eq!(
        resolve_usb_video_node(&scan, 0x04f2, 0xb6d9, true, &known).as_deref(),
        Some("/dev/video2")
    );
    assert_eq!(
        resolve_usb_video_node(&scan, 0x04f2, 0xb6d9, false, &known).as_deref(),
        Some("/dev/video10")
    );
    assert_eq!(
        resolve_node_for("usb:04F2:B6D9", false, &scan, &known).as_deref(),
        Some("/dev/video10")
    );
    assert_eq!(resolve_node_for("usb:dead:beef", true, &scan, &known), None);
}

#[test]
fn linked_nodes_are_ordered_by_their_index() {
    let scan = laptop();
    assert_eq!(
        nodes_for_by_path(&scan.links, "pci-0:1"),
        vec!["/dev/video2", "/dev/video3"]
    );
    assert!(nodes_for_by_path(&scan.links, "pci-9").is_empty());
    let doubled = vec![
        link("p-video-index0", "/dev/video4"),
        link("p-video-index0", "/dev/video1"),
        link("p-video-index2", "/dev/video4"),
    ];
    assert_eq!(
        nodes_for_by_path(&doubled, "p"),
        vec!["/dev/video1", "/dev/video4"]
    );
}

#[test]
fn a_pinned_target_resolves_only_to_its_own_nodes() {
    let scan = laptop();
    assert_eq!(
        node_from_pipewire_target(&scan, "v4l2_input.pci-0_1", true).as_deref(),
        Some("/dev/video2")
    );
    // Two nodes are linked and neither is mono, so the first stands.
    assert_eq!(
        node_from_pipewire_target(&scan, "v4l2_input.pci-0_1", false).as_deref(),
        Some("/dev/video2")
    );
    assert_eq!(
        node_from_pipewire_target(&scan, "v4l2_input.pci-0_2", true).as_deref(),
        Some("/dev/video10")
    );
    assert_eq!(node_from_pipewire_target(&scan, "cam1", true), None);
}

#[test]
fn sources_resolve_to_nodes() {
    let scan = laptop();
    let known = known_devices();
    assert_eq!(resolve_node("", &scan, &known), None);
    assert_eq!(resolve_node("primary", &scan, &known), None);
    assert_eq!(
        resolve_node(" v4l2src device=/dev/video12 ! queue ", &scan, &known).as_deref(),
        Some("/dev/video12")
    );
    assert_eq!(
        resolve_node("pipewiresrc target-object='v4l2_input.pci-0_2'", &scan, &known).as_deref(),
        Some("/dev/video10")
    );
    assert_eq!(
        resolve_node("pipewiresrc target-object=51", &scan, &known),
        None
    );
}

#[test]
fn lists_lead_with_their_own_entries() {
    let scan = laptop();
    let devices = scan.devices.unwrap();
    assert_eq!(
        enumerate_cameras(&devices),
        vec![
            ("Primary Camera".to_string(), "primary".to_string()),
            (
                "Webcam".to_string(),
                "pipewiresrc target-object=v4l2_input.pci-0_1".to_string()
            ),
        ]
    );
    assert_eq!(enumerate_ir_cameras(&devices).len(), 2);
    assert_eq!(ir_choices(None), vec![("None".to_string(), String::new())]);
    assert_eq!(ir_choices(Some(&devices)).len(), 3);
}

#[test]
fn a_lone_color_camera_is_no_infrared_choice() {
    let one = vec![device("Webcam", "a", "/dev/video0", &["YUY2"])];
    assert!(enumerate_ir_cameras(&one).is_empty());
    let two = vec![
        device("Webcam", "a", "/dev/video0", &["YUY2"]),
        device("Webcam", "b", "/dev/video2", &["YUY2"]),
        device("Webcam", "b", "/dev/video4", &["YUY2"]),
    ];
    assert_eq!(
        enumerate_ir_cameras(&two),
        vec![
            (
                "Webcam (/dev/video0)".to_string(),
                "pipewiresrc target-object=a".to_string()
            ),
            (
                "Webcam (/dev/video2)".to_string(),
                "pipewiresrc target-object=b".to_string()
            ),
        ]
    );
}

#[test]
fn malformed_sources_are_named_in_quotes() {
    assert_eq!(
        classify_source("usb:\"x\"", true),
        Err("invalid USB camera spec \"usb:\\\"x\\\"\"; expected usb:VVVV:PPPP (hex VID:PID)".to_string())
    );
    assert_eq!(
        classify_source("/dev/videoX", true),
        Err("invalid V4L2 camera node \"/dev/videoX\"; expected /dev/video<number>".to_string())
    );
}

#[test]
fn a_plan_binds_pipewire_and_falls_back() {
    let scan = laptop();
    let known = known_devices();
    let plan = open_plan("primary", true, &scan, &known, Some(1000)).unwrap();
    assert_eq!(plan.element, "pipewiresrc");
    assert_eq!(plan.session, Some(1000));
    assert!(!plan.force_ir_yuy2);
    assert_eq!(
        open_retry(&plan.fallback, true, &scan, &known, "busy".to_string()),
        Ok(("v4l2src device=/dev/video2".to_string(), false))
    );

    let node = open_plan("/dev/video2", true, &scan, &known, Some(1000)).unwrap();
    assert_eq!(node.session, None);
    assert_eq!(
        open_retry(&node.fallback, true, &scan, &known, "busy".to_string()),
        Err("busy".to_string())
    );

    let empty = no_devices();
    assert_eq!(
        open_retry(&plan.fallback, true, &empty, &known, "gone".to_string()),
        Err("PipeWire camera failed and no V4L2 fallback device was found: gone".to_string())
    );
    assert_eq!(
        open_plan("usb:046d:085e", false, &empty, &known, None).err(),
        Some("no IR camera found for USB 046d:085e".to_string())
    );
}

#[test]
fn a_single_node_module_is_opened_in_its_forced_mode() {
    let scan = Scan {
        devices: Some(vec![device("Module", "m", "/dev/video6", &["YUY2"])]),
        links: Vec::new(),
        ids: vec![ids("/dev/video6", 0x0bda, 0x58c2)],
    };
    let known = known_devices();
    for source in ["usb:0bda:58c2", "/dev/video6", "pipewiresrc target-object=m"] {
        assert!(open_plan(source, false, &scan, &known, None).unwrap().force_ir_yuy2);
        assert!(!open_plan(source, true, &scan, &known, None).unwrap().force_ir_yuy2);
    }
}

#[test]
fn start_failures_name_a_busy_camera() {
    assert_eq!(
        start_error("primary", "state change failed", None),
        "Failed to start pipeline for primary: state change failed"
    );
    assert_eq!(
        start_error("primary", "state change failed", Some("no such device")),
        "Failed to start pipeline for primary: state change failed (no such device)"
    );
    assert_eq!(
        start_error("/dev/video0", "state change failed", Some("Device busy")),
        "The camera is already in use by another program (/dev/video0): Device busy"
    );
    assert_eq!(
        bus_error_detail(&vec![
            BusMessage::Eos,
            BusMessage::Error {
                error: "failed".to_string(),
                debug: None
            }
        ]),
        Some("failed: ".to_string())
    );
}

#[test]
fn a_silent_stream_ends_with_its_pipeline() {
    let mut stream = Stream::new();
    assert_eq!(stream.no_frame(&Vec::new(), false, true), PollEnd::Timeout);
    assert_eq!(stream.no_frame(&Vec::new(), true, true), PollEnd::Ended);
    assert_eq!(stream.no_frame(&Vec::new(), false, false), PollEnd::Ended);
    let busy = vec![BusMessage::Error {
        error: "EBUSY".to_string(),
        debug: Some("x".to_string()),
    }];
    assert_eq!(stream.no_frame(&busy, false, true), PollEnd::Ended);
    assert_eq!(
        stream.take_stream_error().as_deref(),
        Some("The camera is already in use by another program: EBUSY: x")
    );
}

#[test]
fn sockets_and_descriptors_are_spelled_out() {
    assert_eq!(pipewire_socket_path(1000), "/run/user/1000/pipewire-0");
    assert_eq!(bind_pipewire_fd("pipewiresrc", -1), "pipewiresrc fd=-1");
}
