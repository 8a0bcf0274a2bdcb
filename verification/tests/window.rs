//! The configuration dialog and the main window.

use gaze::apply_queue::{write_error, ConfigApplyQueue};
use gaze::config::{
    AuthConfig, CameraConfig, Config, EnrollmentConfig, InferenceConfig, LivenessConfig, Reading,
    SecurityConfig, StorageConfig,
};
use gaze::config_dialog::{
    apply_changes, camera_row_subtitle, chosen_security, fallback_cameras, populate_config_rows,
    BannerAction, ChangedRow, DialogState, Form,
};
use gaze::face::CaptureStatus;
use gaze::faces_window::{
    face_row, faces_page, failure_text, guide_color, guide_label, rename_is_valid, rename_target,
    renamed_text, verify_step, EnrolledFace, FaceListReply, FaceScore, GuideColor, VerifyEvent,
};

/// A queue with the writes that came out of it. A write is in flight until `finish`.
struct Recorded {
    queue: ConfigApplyQueue<u64>,
    applied: Vec<u64>,
    in_flight: Option<u64>,
    max_in_flight: usize,
    errors: Vec<String>,
    fail: bool,
}

impl Recorded {
    fn new(fail: bool) -> Recorded {
        Recorded {
            queue: ConfigApplyQueue::new(),
            applied: Vec::new(),
            in_flight: None,
            max_in_flight: 0,
            errors: Vec::new(),
            fail,
        }
    }

    fn start(&mut self) {
        if let Some(config) = self.queue.next_write() {
            self.max_in_flight = self
                .max_in_flight
                .max(1 + usize::from(self.in_flight.is_some()));
            self.in_flight = Some(config);
        }
    }

    fn timer_ran_out(&mut self) {
        if self.queue.drain_config_apply_queue() {
            self.start();
        }
    }

    fn flush(&mut self) {
        let (_, writer) = self.queue.flush_config_apply();
        if writer {
            self.start();
        }
    }

    fn finish(&mut self) {
        let config = self.in_flight.take().expect("a write is in flight");
        self.applied.push(config);
        if self.fail {
            self.errors.push(write_error("daemon rejected the config"));
        }
        self.start();
    }
}

#[test]
fn config_applies_are_debounced_and_serialized() {
    let mut queue = Recorded::new(false);

    for value in [100, 200, 300, 400, 500] {
        queue.queue.schedule_config_apply(value);
    }
    queue.timer_ran_out();
    queue.finish();
    assert_eq!(
        queue.applied,
        vec![500],
        "the write should carry the final value, not an intermediate one"
    );

    queue.timer_ran_out();
    assert!(queue.in_flight.is_none());
    assert_eq!(queue.applied.len(), 1, "no trailing duplicate write");

    queue.queue.schedule_config_apply(600);
    queue.flush();
    assert_eq!(
        queue.in_flight,
        Some(600),
        "flush should start the write without waiting out the debounce"
    );

    queue.queue.schedule_config_apply(700);
    queue.queue.schedule_config_apply(800);
    queue.timer_ran_out();
    queue.finish();
    queue.finish();
    assert_eq!(
        queue.applied,
        vec![500, 600, 800],
        "queued edits collapse to the latest value"
    );
    assert_eq!(
        queue.max_in_flight, 1,
        "writes must never overlap, or the daemon can persist them out of order"
    );
    assert!(queue.errors.is_empty());

    let mut queue = Recorded::new(true);
    queue.queue.schedule_config_apply(900);
    queue.flush();
    queue.finish();
    assert!(queue.errors[0].starts_with("Failed to apply config"));

    queue.queue.schedule_config_apply(1000);
    queue.flush();
    queue.finish();
    assert_eq!(
        queue.applied.len(),
        2,
        "the queue should keep accepting writes after a failure"
    );
}

#[test]
fn a_running_timer_has_to_be_removed() {
    let mut queue: ConfigApplyQueue<u64> = ConfigApplyQueue::new();
    assert!(!queue.schedule_config_apply(1));
    assert!(queue.schedule_config_apply(2));
    assert_eq!(queue.flush_config_apply(), (true, true));
    assert_eq!(queue.flush_config_apply(), (false, false));
    assert_eq!(queue.next_write(), Some(2));
    assert_eq!(queue.next_write(), None);
    assert!(!queue.schedule_config_apply(3));
}

#[test]
fn rows_are_locked_until_both_unlocked_and_read() {
    let mut state = DialogState::new();
    let banner = state.banner();
    assert_eq!(banner.texts, Some(("Settings are locked", "Unlock…")));
    assert!(banner.revealed && !banner.rows_sensitive);
    assert_eq!(state.banner_clicked(), BannerAction::Authorize);

    state.set_authorized(true);
    assert!(state.begin_load());
    assert!(!state.begin_load(), "one read at a time");
    assert_eq!(
        state.end_load(Err("no daemon".to_string())).as_deref(),
        Some("Failed to load configuration: no daemon")
    );
    assert!(!state.row_changed(ChangedRow::Camera), "nothing was read yet");
    assert_eq!(state.banner().texts.unwrap().1, "Try again");
    assert_eq!(state.banner_clicked(), BannerAction::Load);

    assert!(state.begin_load());
    assert_eq!(state.end_load(Ok(())), None);
    let banner = state.banner();
    assert!(!banner.revealed && banner.rows_sensitive && banner.texts.is_none());
    assert!(state.row_changed(ChangedRow::Other));
    assert!(!state.camera_touched);
    assert!(state.row_changed(ChangedRow::Camera));
    assert!(state.camera_touched && !state.ir_touched);
}

fn reading(value: f64) -> Reading {
    Reading {
        bits: value.to_bits(),
        shown: format!("{value}"),
    }
}

fn config(rgb: &str, ir: &str) -> Config {
    Config {
        security: SecurityConfig {
            level: "medium".to_string(),
            detector: String::new(),
            recognizer: String::new(),
            rgb_threshold: reading(0.4),
            ir_threshold: reading(0.4),
            hybrid_policy: "default".to_string(),
        },
        cameras: CameraConfig {
            rgb: rgb.to_string(),
            ir: ir.to_string(),
            emitter_enabled: false,
            parallel_capture: "never".to_string(),
            dark_luma_threshold: 20,
        },
        enrollment: EnrollmentConfig {
            max_templates: 2,
            min_face_size_ratio: reading(0.25),
        },
        liveness: LivenessConfig {
            enabled: true,
            threshold: reading(0.8),
            max_seconds: reading(2.0),
            max_frames: 30,
        },
        auth: AuthConfig {
            require_confirmation_lock_screen: false,
            require_confirmation_elevation: false,
            abort_if_ssh: true,
            abort_if_lid_closed: true,
            abort_before_first_resume: false,
            resume_grace_ms: 0,
            start_delay_ms: 500,
            start_delay_scope: "all".to_string(),
        },
        storage: StorageConfig {
            encrypt_templates: false,
            unlock_gnome_keyring: true,
            unlock_kwallet: true,
        },
        inference: InferenceConfig {
            execution_provider: "tensorrt".to_string(),
            device: "gpu".to_string(),
        },
    }
}

fn form(camera: usize, ir: usize) -> Form {
    Form {
        execution_provider: "cpu".to_string(),
        openvino_device: "npu".to_string(),
        security: None,
        camera,
        ir,
        emitter_enabled: true,
        parallel_capture: "auto".to_string(),
        dark_luma_threshold: 40,
        max_templates: 5,
        min_face_size_ratio: reading(0.3),
        liveness_enabled: false,
        liveness_threshold: reading(0.9),
        liveness_max_frames: 60,
        require_confirmation_lock_screen: true,
        require_confirmation_elevation: true,
        abort_if_ssh: false,
        abort_if_lid_closed: false,
        abort_before_first_resume: true,
        resume_grace_ms: 100,
        start_delay_ms: 0,
        start_delay_scope: "login".to_string(),
        encrypt_templates: true,
    }
}

fn options() -> Vec<(String, String)> {
    vec![
        ("Primary Camera".to_string(), "primary".to_string()),
        ("Webcam".to_string(), "/dev/video0".to_string()),
    ]
}

#[test]
fn rows_show_what_their_lists_cannot() {
    let rows = populate_config_rows(&config("/dev/video0", "usb:1:2"), false, &options(), &options());
    assert_eq!((rows.camera, rows.camera_subtitle.as_str()), (1, ""));
    assert_eq!(rows.ir, 0);
    assert_eq!(
        rows.ir_subtitle,
        "Configured as usb:1:2, which this list cannot show"
    );
    assert_eq!(
        rows.inference_subtitle,
        "Configured as tensorrt/gpu, which this build cannot show"
    );
    assert!(!rows.device_row_visible);
    assert!(rows.start_delay_scope_row_visible);
    assert!(rows.liveness_rows_visible);
    assert_eq!(camera_row_subtitle(&options(), "primary"), "");
    assert_eq!(
        fallback_cameras(),
        vec![("Primary Camera".to_string(), "primary".to_string())]
    );
}

#[test]
fn an_edit_keeps_what_its_rows_cannot_show() {
    let mut state = DialogState::new();
    state.begin_load();
    state.end_load(Ok(()));
    let rows = populate_config_rows(&config("/dev/video0", "usb:1:2"), false, &options(), &options());
    let edited = apply_changes(
        config("/dev/video0", "usb:1:2"),
        form(rows.camera, rows.ir),
        &state,
        false,
        &options(),
        &options(),
    );
    assert_eq!(edited.cameras.rgb, "/dev/video0");
    assert_eq!(edited.cameras.ir, "usb:1:2");
    assert_eq!(edited.inference.execution_provider, "tensorrt");
    assert_eq!(edited.inference.device, "gpu");
    assert_eq!(edited.security.level, "medium");
    assert_eq!(edited.cameras.dark_luma_threshold, 40);
    assert_eq!(edited.liveness.max_seconds.shown, "2");
    assert!(edited.storage.encrypt_templates && edited.storage.unlock_kwallet);
    assert_eq!(edited.auth.start_delay_scope, "login");

    state.row_changed(ChangedRow::Ir);
    state.row_changed(ChangedRow::Inference);
    let edited = apply_changes(
        config("/dev/video0", "usb:1:2"),
        form(1, 1),
        &state,
        false,
        &options(),
        &options(),
    );
    assert_eq!(edited.cameras.ir, "/dev/video0");
    assert_eq!(edited.inference.execution_provider, "cpu");
    assert_eq!(edited.inference.device, "cpu");
}

fn enrolled(name: &str, captures: u32, has_ir: bool) -> EnrolledFace {
    EnrolledFace {
        name: name.to_string(),
        captures,
        has_rgb: true,
        has_ir,
    }
}

#[test]
fn faces_are_listed_with_their_captures() {
    let row = face_row(&enrolled("default", 1, false));
    assert_eq!((row.title.as_str(), row.subtitle.as_str()), ("default", "1 capture"));
    assert_eq!((row.rgb_badge, row.ir_badge), ("badge-success", "badge-error"));
    assert_eq!(face_row(&enrolled("x", 0, true)).subtitle, "0 captures");

    let page = faces_page(&FaceListReply::Faces(vec![enrolled("default", 2, true)]));
    assert!(page.status.is_none() && page.rows.len() == 1 && !page.retry && page.toast.is_none());
    let page = faces_page(&FaceListReply::FileNotFound);
    assert_eq!(
        page.status,
        Some(("No Faces Enrolled", "Press + to add your first face"))
    );
    let page = faces_page(&FaceListReply::NotActivatable);
    assert!(page.retry && page.status.unwrap().0 == "Daemon Starting");
    let page = faces_page(&FaceListReply::Failed("denied".to_string()));
    assert_eq!(page.toast.as_deref(), Some("Failed to load faces: denied"));
    assert_eq!(page.status.unwrap().0, "No Faces Enrolled");
}

#[test]
fn faces_are_renamed_to_free_names() {
    let faces = vec![enrolled("default", 1, true), enrolled("glasses", 1, true)];
    assert!(rename_is_valid(" hat ", "default", &faces));
    assert!(!rename_is_valid("  ", "default", &faces));
    assert!(!rename_is_valid("default", "default", &faces));
    assert!(!rename_is_valid("glasses", "default", &faces));
    assert_eq!(rename_target(" hat ", "default").as_deref(), Some("hat"));
    assert_eq!(rename_target("default ", "default"), None);
    assert_eq!(rename_target("", "default"), None);
    assert_eq!(renamed_text("a", "b"), "Renamed 'a' to 'b'");
    assert_eq!(failure_text("Failed to rename face", "x"), "Failed to rename face: x");
}

fn score(name: &str, rgb_passed: bool, ir_passed: bool) -> FaceScore {
    FaceScore {
        name: name.to_string(),
        rgb_passed,
        ir_passed,
    }
}

#[test]
fn a_verdict_ends_the_test() {
    let faces = || vec![score("a", false, false), score("b", false, true), score("c", true, true)];
    let matched = verify_step(&VerifyEvent::Verdict {
        matched: true,
        faces: faces(),
    })
    .unwrap();
    assert_eq!(matched.text, "✓ Authentication successful");
    assert_eq!(matched.matched_face.as_deref(), Some("b"));
    let failed = verify_step(&VerifyEvent::Verdict {
        matched: false,
        faces: faces(),
    })
    .unwrap();
    assert_eq!(failed.text, "✗ Authentication failed");
    assert_eq!(failed.matched_face, None);
    assert!(verify_step(&VerifyEvent::Unreadable).is_none());
    assert_eq!(
        verify_step(&VerifyEvent::StreamEnded).unwrap().text,
        "✗ Verification failed"
    );
    let late = verify_step(&VerifyEvent::TimedOut).unwrap();
    assert_eq!(late.text, "✗ Verification timed out");
    assert!(late.stop_daemon);
}

#[test]
fn the_guide_follows_the_status() {
    assert_eq!(guide_color(CaptureStatus::Ready, false), GuideColor::Faint);
    assert_eq!(guide_color(CaptureStatus::Ready, true), GuideColor::Green);
    assert_eq!(guide_color(CaptureStatus::NoFace, true), GuideColor::Grey);
    assert_eq!(guide_color(CaptureStatus::TooFar, true), GuideColor::Amber);
    assert_eq!(guide_label(CaptureStatus::TooFar), "Come Closer");
    assert_eq!(guide_label(CaptureStatus::Usable), "Ready");
}

#[test]
fn a_level_stands_for_a_preset_for_the_rows_or_for_no_change() {
    let named = |level: &str| SecurityConfig {
        level: level.to_string(),
        ..config("", "").security
    };
    let level_of = |preset: Option<SecurityConfig>, custom: bool| {
        chosen_security(preset, custom, named("custom")).map(|security| security.level)
    };
    assert_eq!(level_of(Some(named("high")), false).as_deref(), Some("high"));
    assert_eq!(level_of(Some(named("high")), true).as_deref(), Some("high"));
    assert_eq!(level_of(None, true).as_deref(), Some("custom"));
    assert_eq!(level_of(None, false), None);
}
