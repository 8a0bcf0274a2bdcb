//! Judging frames for a face.

use gaze::face::{
    clamp_bbox, enrollment_pose_matches, frame_is_too_dark, geometry_status, pose_is_held,
    CaptureStatus, EnrollPrompt, EnrollmentPoseStability, FaceChecker, FaceFacts, Geometry,
    IrDarkFrameGate, IrFrameKind, Pose, Rect, RgbFaceLuma, RgbFrameKind, RgbWarmupGate, Spectrum,
    Turn, Verdict, TREND_GRACE, WARMUP,
};
use gaze::frame::{frame_mean_luma, Frame};

fn filled(rows: u32, cols: u32, pixel: &[u8]) -> Frame {
    Frame {
        width: cols,
        height: rows,
        channels: pixel.len(),
        data: pixel.repeat((rows * cols) as usize),
    }
}

fn gate_frame(luma: u8) -> Frame {
    filled(8, 8, &[luma])
}

/// Some time of the clock, in nanoseconds.
const START: u64 = 5_000_000_000;

fn frame_at(offset_ms: u64) -> u64 {
    offset_ms * 1_000_000
}

/// Takes a pose and says whether it is held.
fn update(
    stability: &mut EnrollmentPoseStability,
    prompt: EnrollPrompt,
    yaw: f32,
    pitch: f32,
) -> bool {
    let pose = Pose {
        yaw: yaw.to_bits(),
        pitch: pitch.to_bits(),
    };
    match stability.update(pose) {
        None => false,
        Some((one, two)) => {
            let yaw_range = (f32::from_bits(one.yaw) - f32::from_bits(two.yaw)).abs();
            let pitch_range = (f32::from_bits(one.pitch) - f32::from_bits(two.pitch)).abs();
            pose_is_held(prompt, yaw_range < 0.08, pitch_range < 0.06)
        }
    }
}

#[test]
fn dark_frame_detection_rejects_black_frames() {
    let frame = filled(12, 12, &[0; 3]);

    assert!(frame_mean_luma(&frame) < 30);
}

#[test]
fn dark_gate_rejects_a_dark_rgb_frame_before_detection() {
    let black = filled(8, 8, &[0; 3]);
    assert_eq!(
        FaceChecker::dark_gate(Spectrum::Rgb, 20, &black),
        Some(CaptureStatus::TooDark)
    );
}

#[test]
fn dark_gate_passes_a_lit_rgb_frame_through_to_detection() {
    let lit = filled(8, 8, &[120; 3]);
    assert_eq!(FaceChecker::dark_gate(Spectrum::Rgb, 20, &lit), None);
}

#[test]
fn dark_gate_never_rejects_an_ir_frame() {
    let black = filled(8, 8, &[0; 3]);
    assert_eq!(FaceChecker::dark_gate(Spectrum::Ir, 20, &black), None);
}

#[test]
fn blackout_frames_read_as_too_dark_while_lit_ones_do_not() {
    let black = filled(8, 8, &[0; 3]);
    let lit = filled(8, 8, &[120; 3]);

    assert!(frame_is_too_dark(&black, 30));
    assert!(!frame_is_too_dark(&lit, 30));
}

#[test]
fn dark_frame_detection_accepts_lit_frames() {
    let frame = filled(12, 12, &[120; 3]);

    assert!(frame_mean_luma(&frame) >= 30);
}

#[test]
fn mean_luminance_threshold_is_an_exclusive_lower_bound() {
    let frame = filled(8, 8, &[50; 3]);

    assert!(frame_mean_luma(&frame) < 51);
    assert!(frame_mean_luma(&frame) >= 50);
}

#[test]
fn mean_uses_bt601_weighting() {
    let blue = filled(8, 8, &[255, 0, 0]);
    assert!(frame_mean_luma(&blue) < 30);

    let green = filled(8, 8, &[0, 255, 0]);
    assert!(frame_mean_luma(&green) >= 30);
}

#[test]
fn single_channel_frames_use_raw_luminance() {
    let dark = filled(8, 8, &[5]);
    assert!(frame_mean_luma(&dark) < 30);

    let lit = filled(8, 8, &[120]);
    assert!(frame_mean_luma(&lit) >= 30);
}

#[test]
fn mean_is_robust_to_a_few_bright_pixels() {
    let mut frame = filled(8, 8, &[0; 3]);
    for byte in &mut frame.data[..4 * 3] {
        *byte = 255;
    }
    assert!(frame_mean_luma(&frame) < 30);
}

#[test]
fn empty_frame_is_treated_as_dark() {
    let frame = filled(0, 0, &[0; 3]);
    assert!(frame_mean_luma(&frame) < 30);
}

#[test]
fn dark_frame_gate_passes_lit_frames() {
    let mut gate = IrDarkFrameGate::new(30);
    assert_eq!(gate.classify(&gate_frame(120)), IrFrameKind::Lit);
    assert_eq!(gate.classify(&gate_frame(30)), IrFrameKind::Lit);
}

#[test]
fn dark_frame_gate_skips_strobe_gaps_without_reporting_dark() {
    let mut gate = IrDarkFrameGate::new(30);
    for _ in 0..20 {
        assert_eq!(gate.classify(&gate_frame(2)), IrFrameKind::StrobeDark);
        assert_eq!(gate.classify(&gate_frame(120)), IrFrameKind::Lit);
    }
}

#[test]
fn dark_frame_gate_reports_a_sustained_dark_stream() {
    let mut gate = IrDarkFrameGate::new(30);
    for _ in 0..7 {
        assert_eq!(gate.classify(&gate_frame(2)), IrFrameKind::StrobeDark);
    }
    assert_eq!(gate.classify(&gate_frame(2)), IrFrameKind::EmitterDark);
    assert_eq!(gate.classify(&gate_frame(2)), IrFrameKind::EmitterDark);
    assert_eq!(gate.classify(&gate_frame(120)), IrFrameKind::Lit);
    assert_eq!(gate.classify(&gate_frame(2)), IrFrameKind::StrobeDark);
}

#[test]
fn rgb_warmup_gate_passes_lit_frames() {
    let mut gate = RgbWarmupGate::new(30);
    assert_eq!(
        gate.classify_with_luma(&gate_frame(120), START).0,
        RgbFrameKind::Lit
    );
    assert_eq!(
        gate.classify_with_luma(&gate_frame(30), START).0,
        RgbFrameKind::Lit
    );
}

#[test]
fn rgb_warmup_gate_holds_dark_frames_while_the_sensor_brightens() {
    let mut gate = RgbWarmupGate::new(30);
    let start = START;

    for step in 0..20u64 {
        assert_eq!(
            gate.classify_luma(step as u8, start + frame_at(step * 60)),
            RgbFrameKind::WarmupDark
        );
    }
    assert_eq!(
        gate.classify_luma(120, start + frame_at(1300)),
        RgbFrameKind::Lit
    );
}

#[test]
fn rgb_warmup_gate_gives_a_stream_that_never_brightens_no_grace() {
    let mut gate = RgbWarmupGate::new(30);
    let start = START;

    for step in 0..16u64 {
        assert_eq!(
            gate.classify_luma(0, start + frame_at(step * 60)),
            RgbFrameKind::WarmupDark
        );
    }
    assert_eq!(
        gate.classify_luma(0, start + TREND_GRACE),
        RgbFrameKind::SteadyDark
    );
}

#[test]
fn rgb_warmup_gate_waits_for_enough_frames_before_calling_a_stream_flat() {
    let mut gate = RgbWarmupGate::new(30);
    let start = START;

    assert_eq!(gate.classify_luma(0, start), RgbFrameKind::WarmupDark);
    assert_eq!(
        gate.classify_luma(0, start + TREND_GRACE),
        RgbFrameKind::WarmupDark
    );
}

#[test]
fn rgb_warmup_gate_reports_a_brightening_stream_that_never_arrives() {
    let mut gate = RgbWarmupGate::new(30);
    let start = START;

    for step in 0..20u64 {
        assert_eq!(
            gate.classify_luma(step as u8, start + frame_at(step * 60)),
            RgbFrameKind::WarmupDark
        );
    }
    assert_eq!(
        gate.classify_luma(20, start + WARMUP),
        RgbFrameKind::SettledDark
    );
}

#[test]
fn rgb_warmup_gate_spends_its_grace_on_the_first_lit_frame() {
    let mut gate = RgbWarmupGate::new(30);
    let start = START;

    assert_eq!(gate.classify_luma(120, start), RgbFrameKind::Lit);
    assert_eq!(gate.classify_luma(2, start), RgbFrameKind::SteadyDark);
}

#[test]
fn rgb_warmup_gate_times_the_grace_from_the_first_frame() {
    let mut gate = RgbWarmupGate::new(30);
    let first_frame = START + frame_at(10_000);

    for step in 0..20u64 {
        assert_eq!(
            gate.classify_luma(step as u8, first_frame + frame_at(step * 60)),
            RgbFrameKind::WarmupDark
        );
    }
}

#[test]
fn enrollment_pose_stability_accepts_a_held_pose() {
    let mut stability = EnrollmentPoseStability::new();
    assert!(!update(&mut stability, EnrollPrompt::LookStraight, -0.50, 0.48));
    assert!(update(&mut stability, EnrollPrompt::LookStraight, -0.54, 0.49));
}

#[test]
fn enrollment_pose_stability_rejects_motion_and_resets() {
    let mut stability = EnrollmentPoseStability::new();
    for (yaw, pitch) in [(-0.10, 0.51), (-0.20, 0.50), (-0.30, 0.49)] {
        assert!(!update(&mut stability, EnrollPrompt::LookStraight, yaw, pitch));
    }
    assert!(!update(&mut stability, EnrollPrompt::LookStraight, f32::NAN, 0.49));
    assert!(!update(&mut stability, EnrollPrompt::LookStraight, -0.50, 0.48));
    assert!(update(&mut stability, EnrollPrompt::LookStraight, -0.52, 0.49));
}

#[test]
fn a_pose_is_compared_with_the_one_before_it_only() {
    let pose = |yaw: f32, pitch: f32| Pose {
        yaw: yaw.to_bits(),
        pitch: pitch.to_bits(),
    };
    let mut stability = EnrollmentPoseStability::new();
    assert_eq!(stability.update(pose(0.1, 0.2)), None);
    assert_eq!(
        stability.update(pose(0.3, 0.4)),
        Some((pose(0.1, 0.2), pose(0.3, 0.4)))
    );
    assert_eq!(
        stability.update(pose(0.5, 0.6)),
        Some((pose(0.3, 0.4), pose(0.5, 0.6)))
    );
    for broken in [
        pose(f32::NAN, 0.6),
        pose(0.5, f32::INFINITY),
        pose(f32::NEG_INFINITY, f32::NAN),
    ] {
        assert_eq!(stability.update(broken), None);
        assert_eq!(stability.update(pose(0.7, 0.8)), None);
        assert_eq!(
            stability.update(pose(0.9, 0.8)),
            Some((pose(0.7, 0.8), pose(0.9, 0.8)))
        );
    }
    stability.reset();
    assert_eq!(stability.update(pose(0.9, 0.8)), None);
}

#[test]
fn enrollment_pose_stability_ignores_motion_on_the_prompted_axis() {
    let mut stability = EnrollmentPoseStability::new();
    assert!(!update(&mut stability, EnrollPrompt::LookRight, 0.10, 0.50));
    assert!(update(&mut stability, EnrollPrompt::LookRight, 0.30, 0.52));

    stability.reset();
    assert!(!update(&mut stability, EnrollPrompt::LookUp, 0.02, 0.50));
    assert!(update(&mut stability, EnrollPrompt::LookUp, 0.04, 0.30));

    stability.reset();
    assert!(!update(&mut stability, EnrollPrompt::LookRight, 0.10, 0.40));
    assert!(!update(&mut stability, EnrollPrompt::LookRight, 0.30, 0.50));

    stability.reset();
    assert!(!update(&mut stability, EnrollPrompt::LookUp, -0.10, 0.50));
    assert!(!update(&mut stability, EnrollPrompt::LookUp, 0.10, 0.30));
}

#[test]
fn luma_has_exact_values() {
    assert_eq!(frame_mean_luma(&filled(2, 2, &[255, 255, 255])), 255);
    assert_eq!(frame_mean_luma(&filled(1, 1, &[0, 0, 255])), 76);
    assert_eq!(frame_mean_luma(&filled(1, 1, &[0, 255, 0])), 149);
    assert_eq!(frame_mean_luma(&filled(1, 1, &[255, 0, 0])), 28);
    assert_eq!(frame_mean_luma(&filled(1, 1, &[10, 21])), 15);
    let half = Frame {
        width: 2,
        height: 1,
        channels: 1,
        data: vec![100, 50],
    };
    assert_eq!(frame_mean_luma(&half), 75);
}

fn well_placed() -> Geometry {
    Geometry {
        clipped: false,
        off_center: false,
        below_minimum: false,
        above_maximum: false,
    }
}

#[test]
fn the_first_fault_of_a_place_is_reported() {
    let mut place = Geometry {
        clipped: true,
        off_center: true,
        below_minimum: true,
        above_maximum: true,
    };
    assert_eq!(geometry_status(place, false), Some(CaptureStatus::Clipped));
    place.clipped = false;
    assert_eq!(geometry_status(place, false), None);
    assert_eq!(geometry_status(place, true), Some(CaptureStatus::NotCentered));
    place.off_center = false;
    assert_eq!(geometry_status(place, true), Some(CaptureStatus::TooFar));
    place.below_minimum = false;
    assert_eq!(geometry_status(place, true), Some(CaptureStatus::TooClose));
    assert_eq!(geometry_status(well_placed(), true), None);
}

fn face(face_luma: Option<u8>) -> Option<FaceFacts> {
    Some(FaceFacts {
        geometry: well_placed(),
        has_landmarks: true,
        face_luma,
    })
}

#[test]
fn one_dark_frame_among_lit_ones_is_ready() {
    let mut checker = FaceChecker::new(30, Spectrum::Rgb, true);
    let status = |checker: &mut FaceChecker, luma: u8| checker.capture_status(face(Some(luma))).status;
    assert_eq!(status(&mut checker, 100), CaptureStatus::Usable);
    assert_eq!(status(&mut checker, 29), CaptureStatus::Ready);
    for _ in 0..2 {
        assert_eq!(status(&mut checker, 5), CaptureStatus::Ready);
    }
    // Five frames with a sum of 144 are darker than five times 30.
    assert_eq!(status(&mut checker, 5), CaptureStatus::TooDark);
    // The lit frame has left the history.
    assert_eq!(status(&mut checker, 5), CaptureStatus::TooDark);
    assert_eq!(
        checker.rgb_face_luma(),
        Some(RgbFaceLuma {
            mean: 5,
            rolling_sum: 29 + 5 + 5 + 5 + 5,
            rolling_frames: 5,
            threshold: 30
        })
    );
    assert_eq!(checker.begin_frame(&filled(2, 2, &[0, 0, 0])), Some(CaptureStatus::TooDark));
    assert_eq!(checker.rgb_face_luma(), None);
}

#[test]
fn frames_without_a_face_have_no_result() {
    let mut checker = FaceChecker::new(30, Spectrum::Rgb, true);
    let no_face = Verdict {
        status: CaptureStatus::NoFace,
        with_face: false,
    };
    assert_eq!(checker.capture_status(None), no_face);
    let mut facts = face(Some(100)).unwrap();
    facts.has_landmarks = false;
    assert_eq!(checker.capture_status(Some(facts)), no_face);
    assert_eq!(
        checker.capture_status(face(None)),
        Verdict {
            status: CaptureStatus::TooDark,
            with_face: true
        }
    );
    let mut infrared = FaceChecker::new(30, Spectrum::Ir, false);
    assert_eq!(infrared.begin_frame(&filled(2, 2, &[0])), None);
    assert_eq!(
        infrared.capture_status(face(Some(0))),
        Verdict {
            status: CaptureStatus::Usable,
            with_face: true
        }
    );
}

#[test]
fn boxes_are_cut_to_their_frame() {
    assert_eq!(
        clamp_bbox(640, 480, 10, 20, 700, 100),
        Rect {
            x: 10,
            y: 20,
            width: 630,
            height: 80
        }
    );
    assert_eq!(
        clamp_bbox(640, 480, 700, 20, 10, 10),
        Rect {
            x: 639,
            y: 20,
            width: 0,
            height: 0
        }
    );
}

#[test]
fn prompts_without_a_pose_hold_nothing() {
    assert!(!pose_is_held(EnrollPrompt::Other, true, true));
    assert!(!pose_is_held(EnrollPrompt::LookStraight, true, false));
    assert!(pose_is_held(EnrollPrompt::LookDown, true, false));
    assert!(pose_is_held(EnrollPrompt::LookLeft, false, true));
}

/// What is wrong with the place of a box in a square-padded frame.
fn status_of(
    bbox: (f32, f32, f32, f32),
    width: f32,
    height: f32,
    check_place: bool,
    min_face_size_ratio: f32,
) -> Option<CaptureStatus> {
    let (x1, y1, x2, y2) = bbox;
    let max_dim = width.max(height);
    let pad_x = ((max_dim - width) / 2.0).floor();
    let pad_y = ((max_dim - height) / 2.0).floor();
    let (face_width, face_height) = (x2 - x1, y2 - y1);
    let norm_cx = (x1 + face_width / 2.0) / max_dim;
    let norm_cy = (y1 + face_height / 2.0) / max_dim;
    let size = face_width.max(face_height) / width.min(height);
    let geometry = Geometry {
        clipped: x1 - pad_x < 0.05 * width
            || y1 - pad_y < 0.05 * height
            || x2 - pad_x > 0.95 * width
            || y2 - pad_y > 0.95 * height,
        off_center: (norm_cx - 0.5).abs() >= 0.2 || (norm_cy - 0.5).abs() >= 0.2,
        below_minimum: size < min_face_size_ratio,
        above_maximum: size > 0.78,
    };
    geometry_status(geometry, check_place)
}

#[test]
fn geometry_uses_square_detector_axes_for_centering() {
    assert_eq!(
        status_of((240.0, 240.0, 400.0, 400.0), 640.0, 480.0, true, 0.25),
        None
    );
    assert_eq!(
        status_of((240.0, 240.0, 400.0, 400.0), 480.0, 640.0, true, 0.25),
        None
    );
    assert_eq!(
        status_of((400.0, 240.0, 560.0, 400.0), 640.0, 480.0, true, 0.25),
        Some(CaptureStatus::NotCentered)
    );
}

#[test]
fn geometry_uses_the_configured_lower_face_size_threshold() {
    assert_eq!(
        status_of((375.0, 375.0, 625.0, 625.0), 1000.0, 1000.0, true, 0.25),
        None
    );
    assert_eq!(
        status_of((380.0, 380.0, 620.0, 620.0), 1000.0, 1000.0, true, 0.25),
        Some(CaptureStatus::TooFar)
    );
    assert_eq!(
        status_of((380.0, 380.0, 620.0, 620.0), 1000.0, 1000.0, true, 0.20),
        None
    );
    assert_eq!(
        status_of((105.0, 105.0, 895.0, 895.0), 1000.0, 1000.0, true, 0.25),
        Some(CaptureStatus::TooClose)
    );
}

#[test]
fn authentication_skips_centering_and_proximity_but_still_rejects_clipping() {
    assert_eq!(
        status_of((400.0, 240.0, 560.0, 400.0), 640.0, 480.0, false, 0.25),
        None
    );
    assert_eq!(
        status_of((300.0, 85.0, 380.0, 200.0), 640.0, 480.0, false, 0.25),
        Some(CaptureStatus::Clipped)
    );
}

/// Whether a pose is the one that a prompt asks for.
fn matches_prompt(
    prompt: EnrollPrompt,
    yaw: f32,
    pitch: f32,
    baseline: Option<(f32, f32)>,
) -> bool {
    let pose = Pose {
        yaw: yaw.to_bits(),
        pitch: pitch.to_bits(),
    };
    let straight = yaw.abs() < 0.18 && (0.2..0.8).contains(&pitch);
    let turn = baseline.map(|(base_yaw, base_pitch)| Turn {
        up: pitch < base_pitch - 0.07,
        down: pitch > base_pitch + 0.07,
        left: yaw < base_yaw - 0.16,
        right: yaw > base_yaw + 0.16,
    });
    enrollment_pose_matches(prompt, pose, straight, turn)
}

#[test]
fn enrollment_pose_directions_are_relative_to_straight() {
    let baseline = Some((0.08, 0.62));
    assert!(matches_prompt(EnrollPrompt::LookLeft, -0.10, 0.62, baseline));
    assert!(matches_prompt(EnrollPrompt::LookRight, 0.26, 0.62, baseline));
    assert!(matches_prompt(EnrollPrompt::LookUp, 0.08, 0.52, baseline));
    assert!(matches_prompt(EnrollPrompt::LookDown, 0.08, 0.72, baseline));
    assert!(!matches_prompt(EnrollPrompt::LookLeft, 0.01, 0.62, baseline));
    assert!(!matches_prompt(EnrollPrompt::LookRight, 0.19, 0.62, baseline));
}

#[test]
fn enrollment_straight_pose_rejects_invalid_geometry() {
    assert!(matches_prompt(EnrollPrompt::LookStraight, 0.1, 0.3, None));
    assert!(!matches_prompt(EnrollPrompt::LookStraight, f32::NAN, 0.5, None));
    assert!(!matches_prompt(EnrollPrompt::LookStraight, 0.0, 0.9, None));
}

#[test]
fn a_turn_needs_a_straight_pose_to_be_measured_against() {
    for prompt in [
        EnrollPrompt::LookUp,
        EnrollPrompt::LookDown,
        EnrollPrompt::LookLeft,
        EnrollPrompt::LookRight,
        EnrollPrompt::Other,
    ] {
        assert!(!matches_prompt(prompt, -0.9, 0.1, None));
    }
    assert!(!matches_prompt(EnrollPrompt::Other, 0.0, 0.5, Some((0.5, 0.0))));
}
