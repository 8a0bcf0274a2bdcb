//! Face detection.

use gaze::detect::{
    candidates, has_landmarks, head_grid, input_planes, nms as suppress, total_order_key,
    Candidate, DetectError, FaceDetector, Grid,
};
use gaze::config::InferenceConfig;
use gaze::frame::{mirrored_frame, planes, swap_red_blue, Frame};
use gaze::inference::InferenceRuntime;

fn filled(cols: u32, rows: u32, value: u8) -> Frame {
    Frame {
        width: cols,
        height: rows,
        channels: 3,
        data: vec![value; (cols * rows * 3) as usize],
    }
}

fn iou(box1: &[f32; 4], box2: &[f32; 4]) -> f32 {
    let x1 = box1[0].max(box2[0]);
    let y1 = box1[1].max(box2[1]);
    let x2 = box1[2].min(box2[2]);
    let y2 = box1[3].min(box2[3]);
    let intersection = (x2 - x1).max(0.0) * (y2 - y1).max(0.0);
    let area1 = (box1[2] - box1[0]) * (box1[3] - box1[1]);
    let area2 = (box2[2] - box2[0]) * (box2[3] - box2[1]);
    let union = area1 + area2 - intersection;
    if union <= 0.0 {
        0.0
    } else {
        intersection / union
    }
}

fn nms(boxes: &[[f32; 4]], scores: &[f32], iou_threshold: f32) -> Vec<usize> {
    let keys: Vec<i32> = scores
        .iter()
        .map(|score| total_order_key(score.to_bits()))
        .collect();
    suppress(&keys, |a: usize, b: usize| {
        iou(&boxes[a], &boxes[b]) < iou_threshold
    })
}

#[test]
fn test_nms() {
    let boxes = vec![
        [10.0, 10.0, 20.0, 20.0],
        [12.0, 12.0, 22.0, 22.0],
        [100.0, 100.0, 110.0, 110.0],
    ];
    let scores = vec![0.9, 0.8, 0.95];

    let keep = nms(&boxes, &scores, 0.4);
    assert_eq!(keep, vec![2, 0]);
}

#[test]
fn nms_does_not_panic_on_nan_scores() {
    let boxes = vec![
        [10.0, 10.0, 20.0, 20.0],
        [100.0, 100.0, 110.0, 110.0],
        [200.0, 200.0, 210.0, 210.0],
    ];
    let scores = vec![f32::NAN, 0.9, f32::NAN];

    let keep = nms(&boxes, &scores, 0.4);
    assert_eq!(keep.len(), 3);
    assert!(keep.contains(&1));
}

#[test]
fn nms_on_no_candidates_keeps_nothing() {
    assert!(nms(&[], &[], 0.4).is_empty());
}

#[test]
fn nms_keeps_a_lone_candidate() {
    assert_eq!(nms(&[[0.0, 0.0, 10.0, 10.0]], &[0.5], 0.4), vec![0]);
}

#[test]
fn nms_returns_survivors_in_descending_score_order() {
    let boxes = vec![
        [0.0, 0.0, 10.0, 10.0],
        [100.0, 100.0, 110.0, 110.0],
        [200.0, 200.0, 210.0, 210.0],
    ];
    let scores = vec![0.1, 0.9, 0.5];

    let keep = nms(&boxes, &scores, 0.4);

    assert_eq!(keep, vec![1, 2, 0]);
}

#[test]
fn nms_suppresses_an_overlap_that_exactly_reaches_the_threshold() {
    // Half of the taller box is covered by the shorter one, so their IoU is exactly 0.5.
    let boxes = vec![[0.0, 0.0, 10.0, 10.0], [0.0, 0.0, 10.0, 5.0]];
    let scores = vec![0.9, 0.8];

    assert_eq!(iou(&boxes[0], &boxes[1]), 0.5);
    assert_eq!(nms(&boxes, &scores, 0.5), vec![0]);
    assert_eq!(nms(&boxes, &scores, 0.51), vec![0, 1]);
}

#[test]
fn equal_scores_keep_their_order() {
    let boxes = vec![
        [0.0, 0.0, 10.0, 10.0],
        [100.0, 100.0, 110.0, 110.0],
        [0.0, 0.0, 10.0, 10.0],
    ];
    assert_eq!(nms(&boxes, &[0.5, 0.5, 0.5], 0.4), vec![0, 1]);
}

#[test]
fn keys_order_as_the_total_order_does() {
    let values = [
        f32::NEG_INFINITY,
        -2.0,
        -1.0,
        -0.0,
        0.0,
        0.1,
        0.9,
        f32::INFINITY,
        f32::NAN,
    ];
    for a in values {
        for b in values {
            assert_eq!(
                total_order_key(a.to_bits()) < total_order_key(b.to_bits()),
                a.total_cmp(&b).is_lt(),
                "{a} {b}"
            );
        }
    }
}

#[test]
fn pad_to_square_centres_a_wide_frame_between_top_and_bottom_bars() {
    let padded = FaceDetector::pad_to_square(&filled(4, 2, 200));

    assert_eq!((padded.width, padded.height), (4, 4));
    let bytes = padded.data;
    let row = 4 * 3;
    assert!(
        bytes[..row].iter().all(|b| *b == 0),
        "top bar must be black"
    );
    assert!(bytes[row..row * 2].iter().all(|b| *b == 200));
    assert!(bytes[row * 2..row * 3].iter().all(|b| *b == 200));
    assert!(
        bytes[row * 3..].iter().all(|b| *b == 0),
        "bottom bar must be black"
    );
}

#[test]
fn pad_to_square_gives_an_odd_remainder_to_the_bottom_and_right() {
    let padded = FaceDetector::pad_to_square(&filled(5, 2, 200));
    assert_eq!((padded.width, padded.height), (5, 5));

    let bytes = padded.data;
    let row = 5 * 3;
    // top = (5 - 2) / 2 = 1, bottom = 5 - 2 - 1 = 2.
    assert!(bytes[..row].iter().all(|b| *b == 0));
    assert!(bytes[row..row * 3].iter().all(|b| *b == 200));
    assert!(bytes[row * 3..].iter().all(|b| *b == 0));
}

#[test]
fn pad_to_square_widens_a_tall_frame() {
    let padded = FaceDetector::pad_to_square(&filled(2, 5, 200));
    assert_eq!((padded.width, padded.height), (5, 5));
    let bytes = padded.data;
    assert_eq!(&bytes[..15], &[0, 0, 0, 200, 200, 200, 200, 200, 200, 0, 0, 0, 0, 0, 0]);
}

#[test]
fn pad_to_square_leaves_an_already_square_frame_alone() {
    let padded = FaceDetector::pad_to_square(&filled(3, 3, 200));

    assert_eq!((padded.width, padded.height), (3, 3));
    assert!(padded.data.iter().all(|b| *b == 200));
}

#[test]
fn detect_errors_describe_themselves() {
    assert_eq!(
        DetectError::InitFailed("no model".to_string()).message(),
        "detector init failed: no model"
    );
    assert_eq!(DetectError::NoFacesDetected.message(), "no faces detected");
    assert_eq!(
        DetectError::InferenceFailed("bad shape".to_string()).message(),
        "inference failed: bad shape"
    );
    let io = DetectError::Io("entity not found".to_string());
    assert!(io.message().starts_with("IO: "));
    assert_eq!(
        DetectError::ImageProcessing("bad matrix".to_string()).message(),
        "image processing: bad matrix"
    );
    assert_eq!(
        DetectError::OrtSession("bad graph".to_string()).message(),
        "ORT session: bad graph"
    );
}

#[test]
fn a_model_has_six_or_nine_outputs() {
    assert_eq!(has_landmarks(9), Ok(true));
    assert_eq!(has_landmarks(6), Ok(false));
    assert_eq!(
        has_landmarks(7).err().unwrap().message(),
        "inference failed: expected 6 or 9 model outputs, got 7"
    );
}

#[test]
fn heads_must_cover_their_grid() {
    let grid = Grid {
        stride: 32,
        width: 10,
        height: 10,
    };
    assert_eq!(head_grid(320, 320, 32, 200, 800, Some(2000)), Ok(grid));
    assert_eq!(head_grid(320, 320, 32, 200, 800, None), Ok(grid));
    assert_eq!(
        head_grid(320, 320, 32, 200, 800, Some(1999)).err().unwrap().message(),
        "inference failed: detector heads for stride 32 are too small for a 10x10 grid with 2 \
         anchors: scores 200, boxes 800, keypoints Some(1999)"
    );
    assert_eq!(
        head_grid(320, 320, 32, 199, 800, None).err().unwrap().message(),
        "inference failed: detector heads for stride 32 are too small for a 10x10 grid with 2 \
         anchors: scores 199, boxes 800, keypoints None"
    );
}

#[test]
fn candidates_carry_their_anchors() {
    let grid = Grid {
        stride: 8,
        width: 3,
        height: 2,
    };
    let mut passing = vec![false; 12];
    passing[1] = true;
    passing[4] = true;
    passing[11] = true;
    assert_eq!(
        candidates(grid, &passing),
        vec![
            Candidate {
                index: 1,
                anchor_x: 0,
                anchor_y: 0
            },
            Candidate {
                index: 4,
                anchor_x: 16,
                anchor_y: 0
            },
            Candidate {
                index: 11,
                anchor_x: 16,
                anchor_y: 8
            },
        ]
    );
}

#[test]
fn inputs_are_planes_of_the_right_size() {
    assert_eq!(
        input_planes(&[1, 2, 3, 4, 5, 6], 2, 1),
        Ok(vec![1, 4, 2, 5, 3, 6])
    );
    assert_eq!(planes(&[1, 2, 3, 4, 5, 6]), vec![1, 4, 2, 5, 3, 6]);
    assert_eq!(
        input_planes(&[1, 2, 3], 2, 1).err().unwrap().message(),
        "inference failed: resized image data length 3 does not match plane length 6"
    );
}

#[test]
fn samples_are_mirrored_without_their_padding() {
    let frame = mirrored_frame(&[1, 2, 3, 4, 5, 6, 0, 0, 7, 8, 9, 10, 11, 12], 2, 2, 8);
    assert_eq!((frame.width, frame.height, frame.channels), (2, 2, 3));
    assert_eq!(frame.data, vec![4, 5, 6, 1, 2, 3, 10, 11, 12, 7, 8, 9]);
    let again = mirrored_frame(&frame.data, 2, 2, 6);
    assert_eq!(again.data, vec![1, 2, 3, 4, 5, 6, 7, 8, 9, 10, 11, 12]);
}

#[test]
fn red_and_blue_change_places() {
    let swapped = swap_red_blue(&[1, 2, 3, 4, 5, 6]);
    assert_eq!(swapped, vec![3, 2, 1, 6, 5, 4]);
    assert_eq!(swap_red_blue(&swapped), vec![1, 2, 3, 4, 5, 6]);
}

#[test]
fn a_detector_reports_its_runtime() {
    let config = InferenceConfig {
        execution_provider: "cpu".to_string(),
        device: "cpu".to_string(),
    };
    let detector = FaceDetector::new_with_inference(Ok(InferenceRuntime::cpu(&config, None)))
        .ok()
        .unwrap();
    assert_eq!(detector.inference_runtime().active_device, "cpu");
    assert_eq!(detector.input_size(), (320, 320));
    let failed = FaceDetector::new_with_inference(Err("no model".to_string()));
    assert_eq!(
        failed.err().unwrap().message(),
        "detector init failed: no model"
    );
}
