//! Face detection: the input that a model gets, the layout of what it returns, and which of its
//! candidates are kept.

use crate::frame::Frame;
use crate::inference::InferenceRuntime;
use crate::{frame, inference, text};
use vstd::prelude::*;

verus! {

/// Why no face was found. The causes that come from elsewhere are held as they are shown.
#[derive(Debug, PartialEq, Eq)]
pub enum DetectError {
    InitFailed(String),
    ImageProcessing(String),
    Io(String),
    OrtSession(String),
    NoFacesDetected,
    InferenceFailed(String),
}

pub open spec fn error_message(error: DetectError) -> Seq<char> {
    match error {
        DetectError::InitFailed(message) => "detector init failed: "@ + message@,
        DetectError::ImageProcessing(cause) => "image processing: "@ + cause@,
        DetectError::Io(cause) => "IO: "@ + cause@,
        DetectError::OrtSession(cause) => "ORT session: "@ + cause@,
        DetectError::NoFacesDetected => "no faces detected"@,
        DetectError::InferenceFailed(message) => "inference failed: "@ + message@,
    }
}

impl DetectError {
    pub fn message(&self) -> (r: String)
        ensures
            r@ == error_message(*self),
    {
        match self {
            DetectError::InitFailed(message) => text::cat2(
                "detector init failed: ",
                message.as_str(),
            ),
            DetectError::ImageProcessing(cause) => text::cat2(
                "image processing: ",
                cause.as_str(),
            ),
            DetectError::Io(cause) => text::cat2("IO: ", cause.as_str()),
            DetectError::OrtSession(cause) => text::cat2("ORT session: ", cause.as_str()),
            DetectError::NoFacesDetected => "no faces detected".to_owned(),
            DetectError::InferenceFailed(message) => text::cat2(
                "inference failed: ",
                message.as_str(),
            ),
        }
    }
}

/// What a detector reports of itself, and the size of the input that its model takes.
pub struct FaceDetector {
    inference_runtime: InferenceRuntime,
    input_width: u32,
    input_height: u32,
}

impl FaceDetector {
    pub closed spec fn runtime(&self) -> inference::Runtime {
        self.inference_runtime@
    }

    pub closed spec fn size(&self) -> (u32, u32) {
        (self.input_width, self.input_height)
    }

    pub fn new_with_inference(loaded: Result<InferenceRuntime, String>) -> (r: Result<
        FaceDetector,
        DetectError,
    >)
        ensures
            match r {
                Ok(detector) => loaded is Ok && detector.runtime() == (loaded->Ok_0)@
                    && detector.size() == (320u32, 320u32),
                Err(error) => loaded is Err && error == DetectError::InitFailed(loaded->Err_0),
            },
    {
        match loaded {
            Ok(inference_runtime) => Ok(
                FaceDetector { inference_runtime, input_width: 320, input_height: 320 },
            ),
            Err(error) => Err(DetectError::InitFailed(error)),
        }
    }

    pub fn inference_runtime(&self) -> (r: &InferenceRuntime)
        ensures
            r@ == self.runtime(),
    {
        &self.inference_runtime
    }

    pub fn input_size(&self) -> (r: (u32, u32))
        ensures
            r == self.size(),
    {
        (self.input_width, self.input_height)
    }

    /// A frame in the middle of a black square. Where the bars cannot be equal, the bottom and the
    /// right one are the wider.
    pub fn pad_to_square(image: &Frame) -> (r: Frame)
        requires
            image.wf(),
            side_of(*image) * side_of(*image) * image.channels <= usize::MAX,
        ensures
            r.width == side_of(*image),
            r.height == side_of(*image),
            r.channels == image.channels,
            r.wf(),
            r.data@ == squared(*image),
    {
        let side: u32 = if image.width > image.height {
            image.width
        } else {
            image.height
        };
        let top: u32 = (side - image.height) / 2;
        let bottom: u32 = side - image.height - top;
        let left: u32 = (side - image.width) / 2;
        let right: u32 = side - image.width - left;
        let channels = image.channels;
        let ghost s = side as int;
        let ghost c = channels as int;
        if side == 0 || channels == 0 {
            let out: Vec<u8> = Vec::new();
            proof {
                assert(image.width * c == 0) by (nonlinear_arith)
                    requires
                        c == 0 || image.width == 0,
                ;
                assert(left * c == 0) by (nonlinear_arith)
                    requires
                        c == 0 || left == 0,
                ;
                assert(right * c == 0) by (nonlinear_arith)
                    requires
                        c == 0 || right == 0,
                ;
                assert(s * c == 0) by (nonlinear_arith)
                    requires
                        c == 0 || s == 0,
                ;
                assert(top * (s * c) == 0) by (nonlinear_arith)
                    requires
                        s * c == 0,
                ;
                assert(bottom * (s * c) == 0) by (nonlinear_arith)
                    requires
                        s * c == 0,
                ;
                assert(s * s * c == 0) by (nonlinear_arith)
                    requires
                        s * c == 0,
                ;
                assert(image.height * (image.width * c) == 0) by (nonlinear_arith)
                    requires
                        image.width * c == 0,
                ;
                assert(image.height * (left * c + image.width * c + right * c) == 0)
                    by (nonlinear_arith)
                    requires
                        image.width * c == 0,
                        left * c == 0,
                        right * c == 0,
                ;
                lemma_barred_len(
                    image.data@,
                    image.width * c,
                    left * c,
                    right * c,
                    image.height as int,
                );
                assert(out@ =~= squared(*image));
            }
            return Frame { width: side, height: side, channels, data: out };
        }
        proof {
            assert(s * c <= s * s * c) by (nonlinear_arith)
                requires
                    s >= 1,
                    c >= 0,
            ;
            lemma_within(image.width as int, s, c);
            lemma_within(left as int, s, c);
            lemma_within(right as int, s, c);
            assert(top * (s * c) <= s * s * c) by (nonlinear_arith)
                requires
                    0 <= top <= s,
                    c >= 0,
            ;
            assert(bottom * (s * c) <= s * s * c) by (nonlinear_arith)
                requires
                    0 <= bottom <= s,
                    c >= 0,
            ;
            assert(0 <= top * (s * c)) by (nonlinear_arith)
                requires
                    0 <= top,
                    s >= 0,
                    c >= 0,
            ;
            assert(0 <= bottom * (s * c)) by (nonlinear_arith)
                requires
                    0 <= bottom,
                    s >= 0,
                    c >= 0,
            ;
            assert(image.height * (image.width * c) == image.width * image.height * c)
                by (nonlinear_arith);
        }
        let line: usize = side as usize * channels;
        let row: usize = image.width as usize * channels;
        let left_bytes: usize = left as usize * channels;
        let right_bytes: usize = right as usize * channels;
        let mut out: Vec<u8> = Vec::new();
        push_blank(&mut out, top as usize * line);
        let ghost start = out@;
        let mut from: usize = 0;
        let size: usize = image.data.len();
        let mut done: u32 = 0;
        proof {
            assert(start =~= blank(top * (s * c)));
            assert(out@ =~= start + barred_rows(
                image.data@,
                row as int,
                left_bytes as int,
                right_bytes as int,
                0,
            ));
            assert(0 * row == 0) by (nonlinear_arith);
        }
        while done < image.height
            invariant
                done <= image.height,
                size == image.data@.len(),
                size == image.height * row,
                from == done * row,
                out@ == start + barred_rows(
                    image.data@,
                    row as int,
                    left_bytes as int,
                    right_bytes as int,
                    done as int,
                ),
            decreases image.height - done,
        {
            let ghost before = out@;
            proof {
                assert((done + 1) * row == done * row + row) by (nonlinear_arith);
                assert((done + 1) * row <= image.height * row) by (nonlinear_arith)
                    requires
                        done + 1 <= image.height,
                        row >= 0,
                ;
            }
            push_blank(&mut out, left_bytes);
            push_part(&mut out, &image.data, from, row);
            push_blank(&mut out, right_bytes);
            done = done + 1;
            proof {
                let rows = barred_rows(
                    image.data@,
                    row as int,
                    left_bytes as int,
                    right_bytes as int,
                    done as int,
                );
                assert(out@ =~= start + rows);
            }
            from = from + row;
        }
        let ghost middle = out@;
        push_blank(&mut out, bottom as usize * line);
        proof {
            assert(out@ =~= squared(*image));
            lemma_barred_len(
                image.data@,
                row as int,
                left_bytes as int,
                right_bytes as int,
                image.height as int,
            );
            assert(left * c + image.width * c + right * c == s * c) by (nonlinear_arith)
                requires
                    left + image.width + right == s,
            ;
            assert(top * (s * c) + image.height * (s * c) + bottom * (s * c) == s * s * c)
                by (nonlinear_arith)
                requires
                    top + image.height + bottom == s,
            ;
        }
        Frame { width: side, height: side, channels, data: out }
    }
}

pub open spec fn side_of(image: Frame) -> int {
    if image.width > image.height {
        image.width as int
    } else {
        image.height as int
    }
}

pub open spec fn blank(bytes: int) -> Seq<u8> {
    Seq::new(bytes as nat, |i: int| 0u8)
}

/// The first rows of an image, each between two black bars.
pub open spec fn barred_rows(data: Seq<u8>, row: int, left: int, right: int, rows: int) -> Seq<u8>
    decreases rows,
{
    if rows <= 0 {
        seq![]
    } else {
        barred_rows(data, row, left, right, rows - 1) + blank(left) + data.subrange(
            (rows - 1) * row,
            (rows - 1) * row + row,
        ) + blank(right)
    }
}

pub open spec fn top_bar(image: Frame) -> int {
    (side_of(image) - image.height) / 2
}

pub open spec fn left_bar(image: Frame) -> int {
    (side_of(image) - image.width) / 2
}

pub open spec fn squared(image: Frame) -> Seq<u8> {
    let side = side_of(image);
    let channels = image.channels;
    let right = side - image.width - left_bar(image);
    let bottom = side - image.height - top_bar(image);
    blank(top_bar(image) * (side * channels)) + barred_rows(
        image.data@,
        image.width * channels,
        left_bar(image) * channels,
        right * channels,
        image.height as int,
    ) + blank(bottom * (side * channels))
}

fn push_blank(out: &mut Vec<u8>, bytes: usize)
    ensures
        final(out)@ == old(out)@ + blank(bytes as int),
{
    let ghost start = out@;
    proof {
        assert(out@ =~= start + blank(0));
    }
    for i in 0..bytes
        invariant
            out@ == start + blank(i as int),
    {
        out.push(0);
        proof {
            assert(out@ =~= start + blank(i + 1));
        }
    }
}

fn push_part(out: &mut Vec<u8>, data: &Vec<u8>, from: usize, bytes: usize)
    requires
        from + bytes <= data@.len(),
    ensures
        final(out)@ == old(out)@ + data@.subrange(from as int, from + bytes),
{
    let ghost start = out@;
    proof {
        assert(out@ =~= start + data@.subrange(from as int, from as int));
    }
    let size: usize = data.len();
    for i in 0..bytes
        invariant
            size == data@.len(),
            from + bytes <= size,
            out@ == start + data@.subrange(from as int, from + i),
    {
        out.push(data[from + i]);
        proof {
            assert(out@ =~= start + data@.subrange(from as int, from + i + 1));
        }
    }
}

proof fn lemma_barred_len(data: Seq<u8>, row: int, left: int, right: int, rows: int)
    requires
        rows >= 0,
        row >= 0,
        left >= 0,
        right >= 0,
        rows * row <= data.len(),
    ensures
        barred_rows(data, row, left, right, rows).len() == rows * (left + row + right),
    decreases rows,
{
    if rows > 0 {
        assert(rows * row == (rows - 1) * row + row) by (nonlinear_arith);
        assert(0 <= (rows - 1) * row) by (nonlinear_arith)
            requires
                rows > 0,
                row >= 0,
        ;
        lemma_barred_len(data, row, left, right, rows - 1);
        assert(rows * (left + row + right) == (rows - 1) * (left + row + right) + (left + row
            + right)) by (nonlinear_arith);
    } else {
        assert(rows * (left + row + right) == 0) by (nonlinear_arith)
            requires
                rows == 0,
        ;
    }
}

proof fn lemma_within(part: int, side: int, channels: int)
    by (nonlinear_arith)
    requires
        0 <= part <= side,
        side >= 1,
        channels >= 0,
    ensures
        0 <= part * channels <= side * side * channels,
        part * channels <= side * channels,
{
}

proof fn lemma_barred_byte(
    data: Seq<u8>,
    row: int,
    left: int,
    right: int,
    rows: int,
    y: int,
    k: int,
)
    requires
        row >= 0,
        left >= 0,
        right >= 0,
        rows * row <= data.len(),
        0 <= y < rows,
        0 <= k < left + row + right,
    ensures
        0 <= y * (left + row + right) + k < barred_rows(data, row, left, right, rows).len(),
        barred_rows(data, row, left, right, rows)[y * (left + row + right) + k] == (if left <= k
            < left + row {
            data[y * row + (k - left)]
        } else {
            0u8
        }),
    decreases rows,
{
    let line = left + row + right;
    lemma_barred_len(data, row, left, right, rows);
    assert(rows * row == (rows - 1) * row + row) by (nonlinear_arith);
    assert(0 <= (rows - 1) * row) by (nonlinear_arith)
        requires
            rows > 0,
            row >= 0,
    ;
    lemma_barred_len(data, row, left, right, rows - 1);
    assert(rows * line == (rows - 1) * line + line) by (nonlinear_arith);
    assert(0 <= y * line) by (nonlinear_arith)
        requires
            y >= 0,
            line >= 0,
    ;
    if y < rows - 1 {
        lemma_barred_byte(data, row, left, right, rows - 1, y, k);
    }
}

/// Padding moves every pixel by the width of the left and the top bar, and everything outside the
/// image is black.
pub proof fn padding_keeps_every_pixel(image: Frame, x: int, y: int, c: int)
    requires
        image.wf(),
        0 <= x < side_of(image),
        0 <= y < side_of(image),
        0 <= c < image.channels,
    ensures
        squared(image)[(y * side_of(image) + x) * image.channels + c] == (if top_bar(image) <= y
            < top_bar(image) + image.height && left_bar(image) <= x < left_bar(image)
            + image.width {
            image.data@[((y - top_bar(image)) * image.width + (x - left_bar(image)))
                * image.channels + c]
        } else {
            0u8
        }),
{
    let side = side_of(image);
    let n = image.channels as int;
    let w = image.width as int;
    let h = image.height as int;
    let top = top_bar(image);
    let left = left_bar(image);
    let right = side - w - left;
    let bottom = side - h - top;
    let line = side * n;
    let at = (y * side + x) * n + c;
    let k = x * n + c;
    assert(at == y * line + k) by (nonlinear_arith)
        requires
            at == (y * side + x) * n + c,
            line == side * n,
            k == x * n + c,
    ;
    assert(0 <= k < line) by (nonlinear_arith)
        requires
            0 <= x < side,
            0 <= c < n,
            k == x * n + c,
            line == side * n,
    ;
    assert(left * n + w * n + right * n == line) by (nonlinear_arith)
        requires
            left + w + right == side,
            line == side * n,
    ;
    assert(0 <= left * n && 0 <= right * n && 0 <= w * n) by (nonlinear_arith)
        requires
            left >= 0,
            right >= 0,
            w >= 0,
            n >= 0,
    ;
    assert(h * (w * n) == w * h * n) by (nonlinear_arith);
    lemma_barred_len(image.data@, w * n, left * n, right * n, h);
    assert(0 <= top * line && 0 <= bottom * line) by (nonlinear_arith)
        requires
            top >= 0,
            bottom >= 0,
            line >= 0,
    ;
    if y < top {
        assert(y * line + k < top * line) by (nonlinear_arith)
            requires
                y < top,
                0 <= k < line,
        ;
        assert(0 <= y * line) by (nonlinear_arith)
            requires
                y >= 0,
                line >= 0,
        ;
    } else if y < top + h {
        let r = y - top;
        lemma_barred_byte(image.data@, w * n, left * n, right * n, h, r, k);
        assert(y * line + k == top * line + (r * line + k)) by (nonlinear_arith)
            requires
                y == top + r,
        ;
        assert(r * line + k < h * line) by (nonlinear_arith)
            requires
                r < h,
                0 <= k < line,
        ;
        assert((left <= x < left + w) == (left * n <= k < left * n + w * n)) by (nonlinear_arith)
            requires
                k == x * n + c,
                0 <= c < n,
        ;
        assert((r * w + (x - left)) * n + c == r * (w * n) + (k - left * n)) by (nonlinear_arith)
            requires
                k == x * n + c,
        ;
    } else {
        let r = y - top - h;
        assert(y * line + k == top * line + h * line + (r * line + k)) by (nonlinear_arith)
            requires
                y == top + h + r,
        ;
        assert(0 <= r * line + k < bottom * line) by (nonlinear_arith)
            requires
                0 <= r < bottom,
                0 <= k < line,
        ;
    }
}

/// The pixels of a resized image as one plane per channel, or why they do not fit the input.
pub fn input_planes(data: &[u8], width: u32, height: u32) -> (r: Result<Vec<u8>, DetectError>)
    requires
        width * height * 3 <= u64::MAX,
    ensures
        match r {
            Ok(planes) => data@.len() == width * height * 3 && planes@ == frame::planes_of(data@),
            Err(error) => data@.len() != width * height * 3 && error_message(error)
                == "inference failed: "@ + ("resized image data length "@ + text::decimal(
                data@.len(),
            ) + " does not match plane length "@ + text::decimal(
                (width * height * 3) as nat,
            )),
        },
{
    proof {
        assert(width * height <= width * height * 3) by (nonlinear_arith)
            requires
                width >= 0,
                height >= 0,
        ;
    }
    let wanted: u64 = width as u64 * height as u64 * 3;
    if data.len() as u64 != wanted {
        let length = text::decimal_text(data.len() as u64);
        let wanted = text::decimal_text(wanted);
        let message = text::cat4(
            "resized image data length ",
            length.as_str(),
            " does not match plane length ",
            wanted.as_str(),
        );
        return Err(DetectError::InferenceFailed(message));
    }
    proof {
        assert((width * height * 3) % 3 == 0) by (nonlinear_arith);
    }
    Ok(frame::planes(data))
}

/// A model returns scores and boxes for each of three strides, and landmarks too where it has them.
pub fn has_landmarks(outputs: usize) -> (r: Result<bool, DetectError>)
    ensures
        match r {
            Ok(landmarks) => (outputs == 6 || outputs == 9) && landmarks == (outputs == 9),
            Err(error) => outputs != 6 && outputs != 9 && error_message(error)
                == "inference failed: "@ + ("expected 6 or 9 model outputs, got "@ + text::decimal(
                outputs as nat,
            )),
        },
{
    if outputs != 9 && outputs != 6 {
        let count = text::decimal_text(outputs as u64);
        return Err(
            DetectError::InferenceFailed(
                text::cat2("expected 6 or 9 model outputs, got ", count.as_str()),
            ),
        );
    }
    Ok(outputs == 9)
}

pub const ANCHORS: u32 = 2;

/// The cells of one stride.
#[derive(Clone, Copy, Debug, PartialEq, Eq, Structural)]
pub struct Grid {
    pub stride: u32,
    pub width: u32,
    pub height: u32,
}

impl Grid {
    /// Every anchor lies in an input whose size is representable.
    pub open spec fn wf(&self) -> bool {
        self.width * self.stride <= u32::MAX && self.height * self.stride <= u32::MAX
    }

    /// How many points there are: two for each cell.
    pub open spec fn points(&self) -> int {
        self.height * self.width * ANCHORS
    }
}

pub open spec fn shown_count(count: Option<usize>) -> Seq<char> {
    match count {
        Some(n) => "Some("@ + text::decimal(n as nat) + ")"@,
        None => "None"@,
    }
}

pub open spec fn small_heads(
    grid: Grid,
    scores: usize,
    boxes: usize,
    keypoints: Option<usize>,
) -> Seq<char> {
    "detector heads for stride "@ + text::decimal(grid.stride as nat)
        + " are too small for a "@ + text::decimal(grid.width as nat) + "x"@ + text::decimal(
        grid.height as nat,
    ) + " grid with 2 anchors: scores "@ + text::decimal(scores as nat) + ", boxes "@
        + text::decimal(boxes as nat) + ", keypoints "@ + shown_count(keypoints)
}

/// The heads hold a score, four distances and ten coordinates for every point.
pub open spec fn heads_fit(grid: Grid, scores: usize, boxes: usize, keypoints: Option<usize>) -> bool {
    &&& scores >= grid.points()
    &&& boxes >= grid.points() * 4
    &&& (keypoints is Some ==> keypoints->0 >= grid.points() * 10)
}

proof fn lemma_whole_cells(side: int, stride: int)
    requires
        side >= 0,
        stride > 0,
    ensures
        whole_cells(side / stride, side, stride),
{
    assert((side / stride) * stride <= side < (side / stride + 1) * stride) by (nonlinear_arith)
        requires
            side >= 0,
            stride > 0,
    ;
}

/// As many cells of a stride as fit into a side whole.
pub open spec fn whole_cells(cells: int, side: int, stride: int) -> bool {
    cells * stride <= side < (cells + 1) * stride
}

/// The grid of a stride, where what the model returned for it is large enough.
pub fn head_grid(
    input_width: u32,
    input_height: u32,
    stride: u32,
    scores: usize,
    boxes: usize,
    keypoints: Option<usize>,
) -> (r: Result<Grid, DetectError>)
    requires
        stride > 0,
    ensures
        ({
            let grid = Grid {
                stride,
                width: (input_width / stride) as u32,
                height: (input_height / stride) as u32,
            };
            match r {
                Ok(found) => found == grid && grid.wf() && heads_fit(grid, scores, boxes, keypoints),
                Err(error) => !heads_fit(grid, scores, boxes, keypoints) && error_message(error)
                    == "inference failed: "@ + small_heads(grid, scores, boxes, keypoints),
            }
        }),
        r matches Ok(found) ==> found.stride == stride && whole_cells(
            found.width as int,
            input_width as int,
            stride as int,
        ) && whole_cells(found.height as int, input_height as int, stride as int),
{
    let width: u32 = input_width / stride;
    let height: u32 = input_height / stride;
    let grid = Grid { stride, width, height };
    proof {
        assert((input_width / stride) * stride <= input_width) by (nonlinear_arith)
            requires
                stride > 0,
        ;
        assert((input_height / stride) * stride <= input_height) by (nonlinear_arith)
            requires
                stride > 0,
        ;
        assert(height * width <= 0xffff_fffe_0000_0001) by (nonlinear_arith)
            requires
                height <= 0xffff_ffff,
                width <= 0xffff_ffff,
        ;
    }
    proof {
        lemma_whole_cells(input_width as int, stride as int);
        lemma_whole_cells(input_height as int, stride as int);
    }
    let points: u128 = height as u128 * width as u128 * 2;
    let too_small = (scores as u128) < points || (boxes as u128) < points * 4 || match keypoints {
        Some(n) => (n as u128) < points * 10,
        None => false,
    };
    if too_small {
        let stride_text = text::decimal_text(stride as u64);
        let width_text = text::decimal_text(width as u64);
        let height_text = text::decimal_text(height as u64);
        let scores_text = text::decimal_text(scores as u64);
        let boxes_text = text::decimal_text(boxes as u64);
        let mut message = text::cat5(
            "detector heads for stride ",
            stride_text.as_str(),
            " are too small for a ",
            width_text.as_str(),
            "x",
        );
        message.append(height_text.as_str());
        message.append(" grid with 2 anchors: scores ");
        message.append(scores_text.as_str());
        message.append(", boxes ");
        message.append(boxes_text.as_str());
        message.append(", keypoints ");
        let shown = match keypoints {
            Some(n) => {
                let n = text::decimal_text(n as u64);
                text::cat3("Some(", n.as_str(), ")")
            },
            None => "None".to_owned(),
        };
        message.append(shown.as_str());
        return Err(DetectError::InferenceFailed(message));
    }
    Ok(grid)
}

/// A point whose score is high enough: its place in the heads, and the anchor that its distances are
/// measured from.
#[derive(Clone, Copy, Debug, PartialEq, Eq, Structural)]
pub struct Candidate {
    pub index: usize,
    pub anchor_x: u32,
    pub anchor_y: u32,
}

/// The point of an index: the points go by rows, then by cells, and two to a cell.
pub open spec fn candidate_at(grid: Grid, index: int) -> Candidate {
    Candidate {
        index: index as usize,
        anchor_x: (((index / 2) % (grid.width as int)) * grid.stride) as u32,
        anchor_y: (((index / 2) / (grid.width as int)) * grid.stride) as u32,
    }
}

pub open spec fn candidates_of(grid: Grid, passing: Seq<bool>) -> Seq<Candidate>
    decreases passing.len(),
{
    if passing.len() == 0 {
        seq![]
    } else if passing.last() {
        candidates_of(grid, passing.drop_last()).push(candidate_at(grid, passing.len() - 1))
    } else {
        candidates_of(grid, passing.drop_last())
    }
}

proof fn lemma_anchor(grid: Grid, index: int)
    requires
        grid.wf(),
        0 <= index < grid.points(),
    ensures
        grid.width > 0,
        0 <= ((index / 2) % (grid.width as int)) * grid.stride <= u32::MAX,
        0 <= ((index / 2) / (grid.width as int)) * grid.stride <= u32::MAX,
{
    let w = grid.width as int;
    let h = grid.height as int;
    let s = grid.stride as int;
    assert(w > 0) by (nonlinear_arith)
        requires
            0 <= index < h * w * 2,
            w >= 0,
            h >= 0,
    ;
    let cell = index / 2;
    assert(cell < h * w);
    assert(cell / w < h) by (nonlinear_arith)
        requires
            0 <= cell < h * w,
            w > 0,
    ;
    assert(0 <= cell / w) by (nonlinear_arith)
        requires
            0 <= cell,
            w > 0,
    ;
    assert(0 <= cell % w < w) by (nonlinear_arith)
        requires
            w > 0,
    ;
    assert(0 <= (cell % w) * s <= w * s) by (nonlinear_arith)
        requires
            0 <= cell % w < w,
            s >= 0,
    ;
    assert(0 <= (cell / w) * s <= h * s) by (nonlinear_arith)
        requires
            0 <= cell / w < h,
            s >= 0,
    ;
}

/// The points of a grid whose scores are high enough, in order.
pub fn candidates(grid: Grid, passing: &Vec<bool>) -> (r: Vec<Candidate>)
    requires
        grid.wf(),
        passing@.len() <= grid.points(),
    ensures
        r@ == candidates_of(grid, passing@),
{
    let mut r: Vec<Candidate> = Vec::new();
    for i in 0..passing.len()
        invariant
            grid.wf(),
            passing@.len() <= grid.points(),
            r@ == candidates_of(grid, passing@.take(i as int)),
    {
        proof {
            text::lemma_take_push(passing@, i as int);
            lemma_anchor(grid, i as int);
        }
        if passing[i] {
            let cell: u64 = i as u64 / 2;
            let width: u64 = grid.width as u64;
            let x: u64 = cell % width;
            let y: u64 = cell / width;
            let anchor_x: u64 = x * grid.stride as u64;
            let anchor_y: u64 = y * grid.stride as u64;
            r.push(
                Candidate { index: i, anchor_x: anchor_x as u32, anchor_y: anchor_y as u32 },
            );
        }
    }
    proof {
        assert(passing@.take(passing@.len() as int) =~= passing@);
    }
    r
}

/// The place of a single-precision number in the total order of such numbers, from its bits: below
/// zero the larger the bits, the smaller the number.
pub open spec fn order_key(bits: u32) -> int {
    if bits < 0x8000_0000 {
        bits as int
    } else {
        0x7fff_ffff - bits
    }
}

pub fn total_order_key(bits: u32) -> (r: i32)
    ensures
        r == order_key(bits),
        r == (if bits < 0x8000_0000 {
            bits as int
        } else {
            0x7fff_ffff - bits
        }),
{
    if bits < 0x8000_0000 {
        bits as i32
    } else {
        (0x7fff_ffff - bits as i64) as i32
    }
}

/// A candidate that is considered before another: one with a higher score, or the earlier of two with
/// the same.
pub open spec fn ranks_before(keys: Seq<i32>, a: int, b: int) -> bool {
    keys[a] > keys[b] || (keys[a] == keys[b] && a < b)
}

pub open spec fn ranked(keys: Seq<i32>, order: Seq<usize>) -> bool {
    forall|i: int, j: int|
        0 <= i < j < order.len() ==> ranks_before(
            keys,
            (#[trigger] order[i]) as int,
            (#[trigger] order[j]) as int,
        )
}

spec fn covers(order: Seq<usize>, n: int) -> bool {
    &&& forall|i: int| 0 <= i < order.len() ==> (#[trigger] order[i]) < n
    &&& forall|a: usize| a < n ==> #[trigger] order.contains(a)
}

proof fn lemma_insert(keys: Seq<i32>, order: Seq<usize>, at: int, new: usize)
    requires
        ranked(keys, order),
        covers(order, new as int),
        0 <= at <= order.len(),
        forall|i: int| 0 <= i < at ==> keys[(#[trigger] order[i]) as int] >= keys[new as int],
        forall|i: int|
            at <= i < order.len() ==> keys[(#[trigger] order[i]) as int] < keys[new as int],
    ensures
        ranked(keys, order.insert(at, new)),
        covers(order.insert(at, new), new + 1),
{
    let now = order.insert(at, new);
    assert forall|i: int, j: int| 0 <= i < j < now.len() implies ranks_before(
        keys,
        (#[trigger] now[i]) as int,
        (#[trigger] now[j]) as int,
    ) by {
        let before_i = if i < at {
            i
        } else {
            i - 1
        };
        let before_j = if j < at {
            j
        } else {
            j - 1
        };
        if i != at {
            assert(now[i] == order[before_i]);
        }
        if j != at {
            assert(now[j] == order[before_j]);
        }
    }
    assert forall|i: int| 0 <= i < now.len() implies (#[trigger] now[i]) < new + 1 by {
        if i < at {
            assert(now[i] == order[i]);
        } else if i > at {
            assert(now[i] == order[i - 1]);
        }
    }
    assert forall|a: usize| a < new + 1 implies #[trigger] now.contains(a) by {
        if a == new {
            assert(now[at] == a);
        } else {
            assert(order.contains(a));
            let i = choose|i: int| 0 <= i < order.len() && order[i] == a;
            if i < at {
                assert(now[i] == a);
            } else {
                assert(now[i + 1] == a);
            }
        }
    }
}

fn rank(keys: &Vec<i32>) -> (r: Vec<usize>)
    ensures
        ranked(keys@, r@),
        covers(r@, keys@.len() as int),
{
    let mut order: Vec<usize> = Vec::new();
    for new in 0..keys.len()
        invariant
            ranked(keys@, order@),
            covers(order@, new as int),
    {
        let mut at: usize = order.len();
        while at > 0 && keys[order[at - 1]] < keys[new]
            invariant
                new < keys@.len(),
                covers(order@, new as int),
                at <= order@.len(),
                forall|i: int|
                    at <= i < order@.len() ==> keys@[(#[trigger] order@[i]) as int]
                        < keys@[new as int],
            decreases at,
        {
            at = at - 1;
        }
        proof {
            assert forall|i: int| 0 <= i < at implies keys@[(#[trigger] order@[i]) as int]
                >= keys@[new as int] by {
                if i < at - 1 {
                    assert(ranks_before(keys@, order@[i] as int, order@[at - 1] as int));
                }
            }
            lemma_insert(keys@, order@, at as int, new);
        }
        order.insert(at, new);
    }
    order
}

/// A kept candidate that comes before another one and is not apart from it.
pub open spec fn suppresses<F: Fn(usize, usize) -> bool>(
    keys: Seq<i32>,
    apart: F,
    kept: usize,
    other: usize,
) -> bool {
    ranks_before(keys, kept as int, other as int) && call_ensures(apart, (kept, other), false)
}

pub open spec fn suppressed<F: Fn(usize, usize) -> bool>(
    keys: Seq<i32>,
    apart: F,
    kept: Seq<usize>,
    other: usize,
) -> bool {
    exists|i: int| 0 <= i < kept.len() && suppresses(keys, apart, #[trigger] kept[i], other)
}

fn apart_from_all<F: Fn(usize, usize) -> bool>(kept: &Vec<usize>, apart: &F, other: usize) -> (r: bool)
    requires
        forall|i: int| 0 <= i < kept@.len() ==> call_requires(*apart, (#[trigger] kept@[i], other)),
    ensures
        if r {
            forall|i: int|
                0 <= i < kept@.len() ==> call_ensures(*apart, (#[trigger] kept@[i], other), true)
        } else {
            exists|i: int|
                0 <= i < kept@.len() && call_ensures(*apart, (#[trigger] kept@[i], other), false)
        },
{
    for i in 0..kept.len()
        invariant
            forall|j: int|
                0 <= j < kept@.len() ==> call_requires(*apart, (#[trigger] kept@[j], other)),
            forall|j: int|
                0 <= j < i ==> call_ensures(*apart, (#[trigger] kept@[j], other), true),
    {
        if !apart(kept[i], other) {
            return false;
        }
    }
    true
}

/// Non-maximum suppression: the candidates that are kept, best first. `keys` orders the candidates by
/// score, and `apart` says of two that they overlap less than the threshold. No two that are kept
/// overlap more, and every one that is not kept is suppressed by a better one that is.
pub fn nms<F: Fn(usize, usize) -> bool>(keys: &Vec<i32>, apart: F) -> (r: Vec<usize>)
    requires
        forall|a: usize, b: usize|
            a < keys@.len() && b < keys@.len() ==> #[trigger] call_requires(apart, (a, b)),
    ensures
        forall|i: int| 0 <= i < r@.len() ==> (#[trigger] r@[i]) < keys@.len(),
        ranked(keys@, r@),
        forall|i: int, j: int|
            0 <= i < j < r@.len() ==> call_ensures(
                apart,
                (#[trigger] r@[i], #[trigger] r@[j]),
                true,
            ),
        forall|a: usize|
            a < keys@.len() ==> r@.contains(a) || #[trigger] suppressed(keys@, apart, r@, a),
{
    let order = rank(keys);
    let mut kept: Vec<usize> = Vec::new();
    for n in 0..order.len()
        invariant
            forall|a: usize, b: usize|
                a < keys@.len() && b < keys@.len() ==> #[trigger] call_requires(apart, (a, b)),
            ranked(keys@, order@),
            covers(order@, keys@.len() as int),
            forall|i: int| 0 <= i < kept@.len() ==> (#[trigger] kept@[i]) < keys@.len(),
            ranked(keys@, kept@),
            forall|i: int|
                0 <= i < kept@.len() ==> n == order@.len() || ranks_before(
                    keys@,
                    (#[trigger] kept@[i]) as int,
                    order@[n as int] as int,
                ),
            forall|i: int, j: int|
                0 <= i < j < kept@.len() ==> call_ensures(
                    apart,
                    (#[trigger] kept@[i], #[trigger] kept@[j]),
                    true,
                ),
            forall|k: int|
                0 <= k < n ==> kept@.contains(#[trigger] order@[k]) || suppressed(
                    keys@,
                    apart,
                    kept@,
                    order@[k],
                ),
    {
        let current = order[n];
        let ghost before = kept@;
        let keep = apart_from_all(&kept, &apart, current);
        if keep {
            kept.push(current);
            proof {
                assert forall|k: int| 0 <= k < n implies kept@.contains(#[trigger] order@[k])
                    || suppressed(keys@, apart, kept@, order@[k]) by {
                    if before.contains(order@[k]) {
                        let i = choose|i: int| 0 <= i < before.len() && before[i] == order@[k];
                        assert(kept@[i] == order@[k]);
                    } else {
                        let i = choose|i: int|
                            0 <= i < before.len() && suppresses(
                                keys@,
                                apart,
                                #[trigger] before[i],
                                order@[k],
                            );
                        assert(suppresses(keys@, apart, kept@[i], order@[k]));
                    }
                }
                assert(kept@[before.len() as int] == current);
            }
        } else {
            proof {
                let i = choose|i: int|
                    0 <= i < before.len() && call_ensures(
                        apart,
                        (#[trigger] before[i], current),
                        false,
                    );
                assert(suppresses(keys@, apart, kept@[i], current));
            }
        }
        proof {
            if n + 1 < order@.len() {
                assert(ranks_before(keys@, order@[n as int] as int, order@[n + 1] as int));
            }
        }
    }
    proof {
        assert forall|a: usize| a < keys@.len() implies kept@.contains(a) || #[trigger] suppressed(
            keys@,
            apart,
            kept@,
            a,
        ) by {
            assert(order@.contains(a));
        }
    }
    kept
}

/// The point of a row, a column and an anchor stands at that row and column times the stride, as whole
/// numbers. Two columns never share a horizontal place, nor two rows a vertical one.
pub proof fn anchors_stand_on_their_cells(grid: Grid, x: int, y: int, a: int, other: int)
    requires
        grid.wf(),
        0 <= x < grid.width,
        0 <= y < grid.height,
        0 <= a < 2,
        0 <= other,
    ensures
        candidate_at(grid, (y * grid.width + x) * 2 + a).anchor_x as int == x * grid.stride,
        candidate_at(grid, (y * grid.width + x) * 2 + a).anchor_y as int == y * grid.stride,
        (y * grid.width + x) * 2 + a < grid.points(),
        grid.stride > 0 && other < grid.width && other != x ==> candidate_at(
            grid,
            (y * grid.width + other) * 2 + a,
        ).anchor_x != candidate_at(grid, (y * grid.width + x) * 2 + a).anchor_x,
        grid.stride > 0 && other < grid.height && other != y ==> candidate_at(
            grid,
            (other * grid.width + x) * 2 + a,
        ).anchor_y != candidate_at(grid, (y * grid.width + x) * 2 + a).anchor_y,
{
    lemma_cell(grid, x, y, a);
    let s = grid.stride as int;
    if other < grid.width && other != x && s > 0 {
        lemma_cell(grid, other, y, a);
        assert(other * s != x * s) by (nonlinear_arith)
            requires
                other != x,
                s > 0,
        ;
    }
    if other < grid.height && other != y && s > 0 {
        lemma_cell(grid, x, other, a);
        assert(other * s != y * s) by (nonlinear_arith)
            requires
                other != y,
                s > 0,
        ;
    }
}

proof fn lemma_cell(grid: Grid, x: int, y: int, a: int)
    requires
        grid.wf(),
        0 <= x < grid.width,
        0 <= y < grid.height,
        0 <= a < 2,
    ensures
        candidate_at(grid, (y * grid.width + x) * 2 + a).anchor_x as int == x * grid.stride,
        candidate_at(grid, (y * grid.width + x) * 2 + a).anchor_y as int == y * grid.stride,
        (y * grid.width + x) * 2 + a < grid.points(),
{
    let w = grid.width as int;
    let h = grid.height as int;
    let s = grid.stride as int;
    let cell = y * w + x;
    let index = cell * 2 + a;
    assert(0 <= cell < h * w) by (nonlinear_arith)
        requires
            cell == y * w + x,
            0 <= x < w,
            0 <= y < h,
    ;
    assert(index / 2 == cell);
    assert(cell % w == x && cell / w == y) by (nonlinear_arith)
        requires
            cell == y * w + x,
            0 <= x < w,
            0 <= y,
    ;
    lemma_anchor(grid, index);
}

/// A candidate keeps the index of its point.
pub proof fn candidates_keep_their_index(grid: Grid, index: int)
    requires
        0 <= index <= usize::MAX,
    ensures
        candidate_at(grid, index).index == index,
{
}

/// The candidates of a grid are the points that pass, all of them and no other, each once and in the
/// order of their indices.
pub proof fn every_passing_point_is_a_candidate(grid: Grid, passing: Seq<bool>)
    requires
        passing.len() <= usize::MAX,
    ensures
        forall|k: int|
            #![trigger candidates_of(grid, passing)[k]]
            0 <= k < candidates_of(grid, passing).len() ==> {
                let found = candidates_of(grid, passing)[k];
                &&& found.index < passing.len()
                &&& passing[found.index as int]
                &&& found == candidate_at(grid, found.index as int)
            },
        forall|j: int, k: int|
            0 <= j < k < candidates_of(grid, passing).len() ==> (#[trigger] candidates_of(
                grid,
                passing,
            )[j]).index < (#[trigger] candidates_of(grid, passing)[k]).index,
        forall|i: int|
            0 <= i < passing.len() && #[trigger] passing[i] ==> candidates_of(
                grid,
                passing,
            ).contains(candidate_at(grid, i)),
    decreases passing.len(),
{
    if passing.len() > 0 {
        let rest = passing.drop_last();
        every_passing_point_is_a_candidate(grid, rest);
        let before = candidates_of(grid, rest);
        let now = candidates_of(grid, passing);
        let n = passing.len() - 1;
        assert forall|k: int| #![trigger now[k]] 0 <= k < now.len() implies ({
            let found = now[k];
            &&& found.index < passing.len()
            &&& passing[found.index as int]
            &&& found == candidate_at(grid, found.index as int)
        }) by {
            if k < before.len() {
                assert(now[k] == before[k]);
                assert(rest[before[k].index as int] == passing[before[k].index as int]);
            } else {
                assert(now[k] == candidate_at(grid, n));
            }
        }
        assert forall|j: int, k: int| 0 <= j < k < now.len() implies (#[trigger] now[j]).index < (
        #[trigger] now[k]).index by {
            assert(now[j] == before[j]);
            if k < before.len() {
                assert(now[k] == before[k]);
            } else {
                assert(now[k] == candidate_at(grid, n));
            }
        }
        assert forall|i: int| 0 <= i < passing.len() && #[trigger] passing[i] implies now.contains(
            candidate_at(grid, i),
        ) by {
            if i < n {
                assert(rest[i]);
                let k = choose|k: int| 0 <= k < before.len() && before[k] == candidate_at(grid, i);
                assert(now[k] == candidate_at(grid, i));
            } else {
                assert(now[now.len() - 1] == candidate_at(grid, i));
            }
        }
    }
}

/// A grid has two points for each cell, and its heads are large enough exactly when they hold one score
/// and four distances for each point, and ten coordinates where there are landmarks.
pub proof fn heads_hold_every_point(
    grid: Grid,
    scores: usize,
    boxes: usize,
    keypoints: Option<usize>,
)
    ensures
        grid.points() == 2 * (grid.height * grid.width),
        heads_fit(grid, scores, boxes, keypoints) <==> {
            let points = 2 * (grid.height * grid.width);
            &&& scores >= points
            &&& boxes >= 4 * points
            &&& keypoints is None || keypoints->0 >= 10 * points
        },
{
    assert(grid.height * grid.width * 2 == 2 * (grid.height * grid.width)) by (nonlinear_arith);
    assert(grid.points() == grid.height * grid.width * 2);
}

/// The place of single-precision numbers in their order: of two without a sign the one with the larger
/// bits is larger, of two with a sign it is smaller, and every number with a sign comes before every
/// one without.
pub proof fn keys_order_as_the_numbers_do(a: u32, b: u32)
    ensures
        a < b < 0x8000_0000 ==> order_key(a) < order_key(b),
        0x8000_0000 <= a < b ==> order_key(b) < order_key(a),
        a < 0x8000_0000 <= b ==> order_key(b) < order_key(a),
        order_key(a) == order_key(b) ==> a == b,
{
}

/// Candidates are considered one after the other: the one with the higher score first, and of two with
/// the same score the earlier.
pub proof fn better_candidates_come_first(keys: Seq<i32>, a: int, b: int, c: int)
    ensures
        keys[a] > keys[b] ==> ranks_before(keys, a, b) && !ranks_before(keys, b, a),
        keys[a] == keys[b] && a < b ==> ranks_before(keys, a, b) && !ranks_before(keys, b, a),
        a != b ==> ranks_before(keys, a, b) || ranks_before(keys, b, a),
        !ranks_before(keys, a, a),
        ranks_before(keys, a, b) && ranks_before(keys, b, c) ==> ranks_before(keys, a, c),
{
}

/// The square is as wide as the longer side, and the bars on two sides differ by one at most, the top
/// and the left one being the narrower.
pub proof fn bars_are_even(image: Frame)
    ensures
        side_of(image) >= image.width && side_of(image) >= image.height,
        side_of(image) == image.width || side_of(image) == image.height,
        2 * top_bar(image) <= side_of(image) - image.height <= 2 * top_bar(image) + 1,
        2 * left_bar(image) <= side_of(image) - image.width <= 2 * left_bar(image) + 1,
{
}

/// A grid has as many cells as fit whole, which is one number for each side.
pub proof fn a_side_has_one_number_of_cells(a: int, b: int, side: int, stride: int)
    requires
        stride > 0,
        side >= 0,
        whole_cells(a, side, stride),
        whole_cells(b, side, stride),
    ensures
        a == b,
        a >= 0,
        side < stride ==> a == 0,
{
    assert(a == b) by (nonlinear_arith)
        requires
            stride > 0,
            a * stride <= side < (a + 1) * stride,
            b * stride <= side < (b + 1) * stride,
    ;
    assert(a >= 0) by (nonlinear_arith)
        requires
            stride > 0,
            side >= 0,
            side < (a + 1) * stride,
    ;
    assert(side < stride ==> a <= 0) by (nonlinear_arith)
        requires
            stride > 0,
            a * stride <= side,
    ;
}

/// A candidate is suppressed only by a kept one with a better key, or with an equal key and a lower
/// index, that is not apart from it; and by any such one, wherever it stands among the kept.
pub proof fn a_candidate_is_suppressed_only_by_a_better_one<F: Fn(usize, usize) -> bool>(
    keys: Seq<i32>,
    apart: F,
    kept: Seq<usize>,
    other: usize,
    i: int,
)
    requires
        0 <= i < kept.len(),
    ensures
        suppressed(keys, apart, kept, other) ==> exists|k: usize| #[trigger]
            kept.contains(k) && (keys[k as int] > keys[other as int] || (keys[k as int]
                == keys[other as int] && k < other)) && call_ensures(apart, (k, other), false),
        keys[kept[i] as int] > keys[other as int] && call_ensures(apart, (kept[i], other), false)
            ==> suppressed(keys, apart, kept, other),
        keys[kept[i] as int] == keys[other as int] && kept[i] < other && call_ensures(
            apart,
            (kept[i], other),
            false,
        ) ==> suppressed(keys, apart, kept, other),
{
    if suppressed(keys, apart, kept, other) {
        let j = choose|j: int|
            0 <= j < kept.len() && suppresses(keys, apart, #[trigger] kept[j], other);
        assert(kept.contains(kept[j]));
    }
    if keys[kept[i] as int] >= keys[other as int] && call_ensures(apart, (kept[i], other), false) {
        assert(ranks_before(keys, kept[i] as int, other as int) ==> suppresses(
            keys,
            apart,
            kept[i],
            other,
        ));
    }
}

/// An order by rank never puts a worse key before a better one, and holds no candidate twice.
pub proof fn an_order_by_rank_falls(keys: Seq<i32>, order: Seq<usize>, i: int, j: int)
    requires
        ranked(keys, order),
        0 <= i < j < order.len(),
    ensures
        keys[order[i] as int] >= keys[order[j] as int],
        order[i] != order[j],
        keys[order[i] as int] == keys[order[j] as int] ==> order[i] < order[j],
{
    assert(ranks_before(keys, order[i] as int, order[j] as int));
}

/// A failure is told of with its cause at the end, and each kind under its own words.
pub proof fn failures_end_in_their_cause(cause: String)
    ensures
        error_message(DetectError::InitFailed(cause)) == "detector init failed: "@ + cause@,
        error_message(DetectError::ImageProcessing(cause)) == "image processing: "@ + cause@,
        error_message(DetectError::Io(cause)) == "IO: "@ + cause@,
        error_message(DetectError::OrtSession(cause)) == "ORT session: "@ + cause@,
        error_message(DetectError::InferenceFailed(cause)) == "inference failed: "@ + cause@,
        error_message(DetectError::NoFacesDetected) == "no faces detected"@,
{
}

} // verus!
