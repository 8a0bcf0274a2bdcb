//! Judging frames for a face: their light, the face's place in them, and a held pose.

use crate::frame;
use crate::frame::{frame_mean_luma, Frame};
use std::collections::VecDeque;
use vstd::prelude::*;

verus! {

#[derive(Clone, Copy, Debug, PartialEq, Eq, Hash, Structural)]
pub enum Spectrum {
    Rgb,
    Ir,
}

/// What a frame is good for.
#[derive(Clone, Copy, Debug, PartialEq, Eq, Structural)]
pub enum CaptureStatus {
    Unused,
    NoFace,
    TooDark,
    NotCentered,
    Clipped,
    TooFar,
    TooClose,
    Ready,
    Usable,
}

/// What a person is asked to do while they enroll.
#[derive(Clone, Copy, Debug, PartialEq, Eq, Structural)]
pub enum EnrollPrompt {
    LookStraight,
    LookUp,
    LookDown,
    LookLeft,
    LookRight,
    /// Anything that asks for no pose.
    Other,
}

/// How a face lies in its frame.
#[derive(Clone, Copy, Debug, PartialEq, Eq, Structural)]
pub struct Geometry {
    pub clipped: bool,
    pub off_center: bool,
    pub below_minimum: bool,
    pub above_maximum: bool,
}

/// What is wrong with a face's place, the first that applies. Authentication only minds a clipped
/// face.
pub open spec fn place_status(geometry: Geometry, check_place: bool) -> Option<CaptureStatus> {
    if geometry.clipped {
        Some(CaptureStatus::Clipped)
    } else if !check_place {
        None
    } else if geometry.off_center {
        Some(CaptureStatus::NotCentered)
    } else if geometry.below_minimum {
        Some(CaptureStatus::TooFar)
    } else if geometry.above_maximum {
        Some(CaptureStatus::TooClose)
    } else {
        None
    }
}

pub fn geometry_status(geometry: Geometry, check_centering_and_proximity: bool) -> (r: Option<
    CaptureStatus,
>)
    ensures
        r == place_status(geometry, check_centering_and_proximity),
{
    if geometry.clipped {
        return Some(CaptureStatus::Clipped);
    }
    if !check_centering_and_proximity {
        return None;
    }
    if geometry.off_center {
        Some(CaptureStatus::NotCentered)
    } else if geometry.below_minimum {
        Some(CaptureStatus::TooFar)
    } else if geometry.above_maximum {
        Some(CaptureStatus::TooClose)
    } else {
        None
    }
}

pub fn frame_is_too_dark(frame: &Frame, threshold: u8) -> (r: bool)
    ensures
        r == (frame::mean_luma(*frame) < threshold),
{
    frame_mean_luma(frame) < threshold
}

#[derive(Clone, Copy, Debug, PartialEq, Eq, Structural)]
pub enum IrFrameKind {
    Lit,
    StrobeDark,
    EmitterDark,
}

/// From how many dark frames in a row on the emitter is taken to be off.
pub const EMITTER_DARK_STREAK: u32 = 8;

/// Emitters strobe, lighting only alternate frames, so that a single dark frame is normal and only an
/// unbroken streak means that the emitter never fired.
pub struct IrDarkFrameGate {
    threshold: u8,
    consecutive_dark: u32,
}

/// The number of dark frames in a row after one more frame.
pub open spec fn streak_after(streak: int, threshold: u8, luma: u8) -> int {
    if luma >= threshold {
        0
    } else if streak < u32::MAX {
        streak + 1
    } else {
        streak
    }
}

pub open spec fn kind_in_streak(streak: int) -> IrFrameKind {
    if streak == 0 {
        IrFrameKind::Lit
    } else if streak >= EMITTER_DARK_STREAK {
        IrFrameKind::EmitterDark
    } else {
        IrFrameKind::StrobeDark
    }
}

impl IrDarkFrameGate {
    pub closed spec fn dark_below(&self) -> u8 {
        self.threshold
    }

    pub closed spec fn streak(&self) -> int {
        self.consecutive_dark as int
    }

    pub fn new(threshold: u8) -> (r: IrDarkFrameGate)
        ensures
            r.dark_below() == threshold,
            r.streak() == 0,
    {
        IrDarkFrameGate { threshold, consecutive_dark: 0 }
    }

    pub fn classify_luma(&mut self, luma: u8) -> (r: IrFrameKind)
        ensures
            final(self).dark_below() == old(self).dark_below(),
            final(self).streak() == streak_after(old(self).streak(), old(self).dark_below(), luma),
            r == kind_in_streak(final(self).streak()),
    {
        if luma >= self.threshold {
            self.consecutive_dark = 0;
            return IrFrameKind::Lit;
        }
        if self.consecutive_dark < u32::MAX {
            self.consecutive_dark = self.consecutive_dark + 1;
        }
        if self.consecutive_dark >= EMITTER_DARK_STREAK {
            IrFrameKind::EmitterDark
        } else {
            IrFrameKind::StrobeDark
        }
    }

    pub fn classify_with_luma(&mut self, frame: &Frame) -> (r: (IrFrameKind, u8))
        ensures
            r.1 == frame::mean_luma(*frame),
            final(self).dark_below() == old(self).dark_below(),
            final(self).streak() == streak_after(old(self).streak(), old(self).dark_below(), r.1),
            r.0 == kind_in_streak(final(self).streak()),
    {
        let luma = frame_mean_luma(frame);
        (self.classify_luma(luma), luma)
    }

    pub fn classify(&mut self, frame: &Frame) -> (r: IrFrameKind)
        ensures
            final(self).dark_below() == old(self).dark_below(),
            final(self).streak() == streak_after(
                old(self).streak(),
                old(self).dark_below(),
                frame::mean_luma(*frame) as u8,
            ),
            r == kind_in_streak(final(self).streak()),
    {
        let luma = frame_mean_luma(frame);
        self.classify_luma(luma)
    }
}

/// The streak at the end of a stream.
pub open spec fn stream_streak(threshold: u8, lumas: Seq<u8>) -> int
    decreases lumas.len(),
{
    if lumas.len() == 0 {
        0
    } else {
        streak_after(stream_streak(threshold, lumas.drop_last()), threshold, lumas.last())
    }
}

pub open spec fn dark_run(threshold: u8, lumas: Seq<u8>, n: int) -> bool {
    n <= lumas.len() && forall|i: int|
        lumas.len() - n <= i < lumas.len() ==> #[trigger] lumas[i] < threshold
}

proof fn lemma_streak(threshold: u8, lumas: Seq<u8>, n: int)
    requires
        0 <= n <= u32::MAX,
    ensures
        0 <= stream_streak(threshold, lumas) <= u32::MAX,
        stream_streak(threshold, lumas) >= n <==> dark_run(threshold, lumas, n),
    decreases lumas.len(),
{
    if lumas.len() > 0 {
        let rest = lumas.drop_last();
        if n > 0 {
            lemma_streak(threshold, rest, n - 1);
            lemma_streak(threshold, rest, u32::MAX as int);
            if lumas.last() < threshold {
                assert(dark_run(threshold, lumas, n) == dark_run(threshold, rest, n - 1)) by {
                    if dark_run(threshold, lumas, n) {
                        assert forall|i: int| rest.len() - (n - 1) <= i < rest.len() implies
                            #[trigger] rest[i] < threshold by {
                            assert(lumas[i] < threshold);
                        }
                    }
                    if dark_run(threshold, rest, n - 1) {
                        assert forall|i: int| lumas.len() - n <= i < lumas.len() implies
                            #[trigger] lumas[i] < threshold by {
                            if i < rest.len() {
                                assert(rest[i] < threshold);
                            }
                        }
                    }
                }
            } else {
                assert(!dark_run(threshold, lumas, n)) by {
                    assert(!(lumas[lumas.len() - 1] < threshold));
                }
            }
        } else {
            lemma_streak(threshold, rest, 0);
        }
    }
}

/// The emitter is reported dark exactly when the last eight frames of a stream were all dark, however
/// often it strobed before.
pub proof fn the_emitter_is_dark_after_a_whole_streak(threshold: u8, lumas: Seq<u8>)
    ensures
        kind_in_streak(stream_streak(threshold, lumas)) == IrFrameKind::EmitterDark <==> dark_run(
            threshold,
            lumas,
            EMITTER_DARK_STREAK as int,
        ),
{
    lemma_streak(threshold, lumas, EMITTER_DARK_STREAK as int);
}

#[derive(Clone, Copy, Debug, PartialEq, Eq, Structural)]
pub enum RgbFrameKind {
    Lit,
    WarmupDark,
    SettledDark,
    SteadyDark,
}

/// How long a sensor may take to brighten, in nanoseconds.
pub const WARMUP: u64 = 2_000_000_000;

/// How long a stream is watched before it is taken not to brighten, in nanoseconds.
pub const TREND_GRACE: u64 = 1_000_000_000;

pub const TREND_FRAMES: u32 = 8;

pub const RISE_MARGIN: u8 = 2;

/// Tells a colour sensor that is still adjusting from a scene that is dark. Times are nanoseconds of
/// a clock that never goes back.
#[derive(Clone, Copy, Debug, PartialEq, Eq, Structural)]
pub struct RgbWarmupGate {
    pub threshold: u8,
    pub first_frame_at: Option<u64>,
    pub baseline: Option<u8>,
    pub brightest: u8,
    pub frames: u32,
    pub lit_once: bool,
}

pub open spec fn time_since(first: u64, now: u64) -> int {
    if now > first {
        now - first
    } else {
        0
    }
}

/// What is known of a sensor after one more frame.
pub open spec fn warmed(gate: RgbWarmupGate, luma: u8, now: u64) -> RgbWarmupGate {
    RgbWarmupGate {
        threshold: gate.threshold,
        first_frame_at: Some(
            match gate.first_frame_at {
                Some(at) => at,
                None => now,
            },
        ),
        baseline: Some(
            match gate.baseline {
                Some(baseline) => baseline,
                None => luma,
            },
        ),
        brightest: if luma > gate.brightest {
            luma
        } else {
            gate.brightest
        },
        frames: if gate.frames < u32::MAX {
            (gate.frames + 1) as u32
        } else {
            gate.frames
        },
        lit_once: gate.lit_once || luma >= gate.threshold,
    }
}

/// What a frame is, from what is known of its sensor after it.
pub open spec fn frame_kind(after: RgbWarmupGate, lit_before: bool, luma: u8, now: u64) -> RgbFrameKind {
    let elapsed = time_since(after.first_frame_at->0, now);
    let rising = after.brightest - after.baseline->0 >= RISE_MARGIN;
    if luma >= after.threshold {
        RgbFrameKind::Lit
    } else if lit_before {
        RgbFrameKind::SteadyDark
    } else if elapsed >= WARMUP {
        RgbFrameKind::SettledDark
    } else if !rising && elapsed >= TREND_GRACE && after.frames >= TREND_FRAMES {
        RgbFrameKind::SteadyDark
    } else {
        RgbFrameKind::WarmupDark
    }
}

impl RgbWarmupGate {
    pub fn new(threshold: u8) -> (r: RgbWarmupGate)
        ensures
            r == (RgbWarmupGate {
                threshold,
                first_frame_at: None,
                baseline: None,
                brightest: 0,
                frames: 0,
                lit_once: false,
            }),
    {
        RgbWarmupGate {
            threshold,
            first_frame_at: None,
            baseline: None,
            brightest: 0,
            frames: 0,
            lit_once: false,
        }
    }

    pub fn classify_luma(&mut self, luma: u8, now: u64) -> (r: RgbFrameKind)
        ensures
            *final(self) == warmed(*old(self), luma, now),
            r == frame_kind(*final(self), old(self).lit_once, luma, now),
    {
        let first: u64 = match self.first_frame_at {
            Some(at) => at,
            None => now,
        };
        self.first_frame_at = Some(first);
        let baseline: u8 = match self.baseline {
            Some(baseline) => baseline,
            None => luma,
        };
        self.baseline = Some(baseline);
        if luma > self.brightest {
            self.brightest = luma;
        }
        if self.frames < u32::MAX {
            self.frames = self.frames + 1;
        }
        if luma >= self.threshold {
            self.lit_once = true;
            return RgbFrameKind::Lit;
        }
        if self.lit_once {
            return RgbFrameKind::SteadyDark;
        }
        let elapsed: u64 = if now > first {
            now - first
        } else {
            0
        };
        if elapsed >= WARMUP {
            return RgbFrameKind::SettledDark;
        }
        let rising = self.brightest >= baseline && self.brightest - baseline >= RISE_MARGIN;
        if !rising && elapsed >= TREND_GRACE && self.frames >= TREND_FRAMES {
            return RgbFrameKind::SteadyDark;
        }
        RgbFrameKind::WarmupDark
    }

    pub fn classify_with_luma(&mut self, frame: &Frame, now: u64) -> (r: (RgbFrameKind, u8))
        ensures
            r.1 == frame::mean_luma(*frame),
            *final(self) == warmed(*old(self), r.1, now),
            r.0 == frame_kind(*final(self), old(self).lit_once, r.1, now),
    {
        let luma = frame_mean_luma(frame);
        (self.classify_luma(luma, now), luma)
    }
}

/// The grace that a sensor has to brighten ends with the first lit frame, and otherwise with the
/// warm-up time after the first frame.
pub proof fn the_grace_ends(gate: RgbWarmupGate, luma: u8, now: u64)
    ensures
        gate.lit_once ==> warmed(gate, luma, now).lit_once && frame_kind(
            warmed(gate, luma, now),
            gate.lit_once,
            luma,
            now,
        ) != RgbFrameKind::WarmupDark,
        gate.first_frame_at is Some && now >= gate.first_frame_at->0 + WARMUP ==> frame_kind(
            warmed(gate, luma, now),
            gate.lit_once,
            luma,
            now,
        ) != RgbFrameKind::WarmupDark,
        luma >= gate.threshold <==> frame_kind(
            warmed(gate, luma, now),
            gate.lit_once,
            luma,
            now,
        ) == RgbFrameKind::Lit,
{
}

/// The light on a face: of its last frame, and the sum over its last frames.
#[derive(Clone, Copy, Debug, PartialEq, Eq, Structural)]
pub struct RgbFaceLuma {
    pub mean: u8,
    pub rolling_sum: u32,
    pub rolling_frames: u32,
    pub threshold: u8,
}

/// How many frames the light on a face is averaged over.
pub const LUMA_HISTORY: usize = 5;

pub open spec fn luma_total(history: Seq<u8>) -> int
    decreases history.len(),
{
    if history.len() == 0 {
        0
    } else {
        luma_total(history.drop_last()) + history.last()
    }
}

/// The history with one more frame, without the oldest where there are enough.
pub open spec fn recent(history: Seq<u8>, luma: u8) -> Seq<u8> {
    if history.len() >= LUMA_HISTORY {
        history.push(luma).skip(1)
    } else {
        history.push(luma)
    }
}

fn total_of(history: &VecDeque<u8>) -> (r: u32)
    requires
        history@.len() <= LUMA_HISTORY,
    ensures
        r == luma_total(history@),
        r <= 255 * history@.len(),
{
    let mut total: u32 = 0;
    for i in 0..history.len()
        invariant
            history@.len() <= LUMA_HISTORY,
            total == luma_total(history@.take(i as int)),
            total <= 255 * i,
    {
        proof {
            crate::text::lemma_take_push(history@, i as int);
        }
        total = total + history[i] as u32;
    }
    proof {
        assert(history@.take(history@.len() as int) =~= history@);
    }
    total
}

/// What was found of the surest face of a frame.
#[derive(Clone, Copy, Debug, PartialEq, Eq, Structural)]
pub struct FaceFacts {
    pub geometry: Geometry,
    pub has_landmarks: bool,
    /// The light on the face, where its part of the frame could be cut out.
    pub face_luma: Option<u8>,
}

/// What comes of a frame: its status, and whether the face goes with it.
#[derive(Clone, Copy, Debug, PartialEq, Eq, Structural)]
pub struct Verdict {
    pub status: CaptureStatus,
    pub with_face: bool,
}

/// Judges the frames of one camera.
pub struct FaceChecker {
    dark_luma_threshold: u8,
    rgb_luma_history: VecDeque<u8>,
    last_rgb_face_luma: Option<RgbFaceLuma>,
    spectrum: Spectrum,
    check_centering_and_proximity: bool,
}

pub struct Checker {
    pub threshold: u8,
    pub history: Seq<u8>,
    pub last: Option<RgbFaceLuma>,
    pub spectrum: Spectrum,
    pub check_place: bool,
}

impl View for FaceChecker {
    type V = Checker;

    closed spec fn view(&self) -> Checker {
        Checker {
            threshold: self.dark_luma_threshold,
            history: self.rgb_luma_history@,
            last: self.last_rgb_face_luma,
            spectrum: self.spectrum,
            check_place: self.check_centering_and_proximity,
        }
    }
}

/// A colour frame that is too dark to look for a face in.
pub open spec fn gated(spectrum: Spectrum, threshold: u8, frame: Frame) -> bool {
    spectrum == Spectrum::Rgb && frame::mean_luma(frame) < threshold
}

pub open spec fn face_light(checker: Checker, luma: u8) -> RgbFaceLuma {
    let history = recent(checker.history, luma);
    RgbFaceLuma {
        mean: luma,
        rolling_sum: luma_total(history) as u32,
        rolling_frames: history.len() as u32,
        threshold: checker.threshold,
    }
}

/// How usable the light on a face makes its frame. A single dark frame among lit ones is not called
/// too dark.
pub open spec fn light_status(checker: Checker, luma: u8) -> CaptureStatus {
    let history = recent(checker.history, luma);
    if luma >= checker.threshold {
        CaptureStatus::Usable
    } else if luma_total(history) < checker.threshold * history.len() {
        CaptureStatus::TooDark
    } else {
        CaptureStatus::Ready
    }
}

/// What comes of a frame in which a face was found.
pub open spec fn face_verdict(checker: Checker, facts: FaceFacts) -> Verdict {
    match place_status(facts.geometry, checker.check_place) {
        Some(status) => Verdict { status, with_face: true },
        None => if !facts.has_landmarks {
            Verdict { status: CaptureStatus::NoFace, with_face: false }
        } else {
            Verdict {
                status: if checker.spectrum == Spectrum::Ir {
                    CaptureStatus::Usable
                } else {
                    match facts.face_luma {
                        Some(luma) => light_status(checker, luma),
                        None => CaptureStatus::TooDark,
                    }
                },
                with_face: true,
            }
        },
    }
}

/// The light on the face counts only for a well placed face of a colour frame.
pub open spec fn counts_light(checker: Checker, facts: FaceFacts) -> bool {
    &&& place_status(facts.geometry, checker.check_place) is None
    &&& facts.has_landmarks
    &&& checker.spectrum == Spectrum::Rgb
    &&& facts.face_luma is Some
}

impl FaceChecker {
    pub open spec fn wf(&self) -> bool {
        self@.history.len() <= LUMA_HISTORY
    }

    pub fn new(
        dark_luma_threshold: u8,
        spectrum: Spectrum,
        check_centering_and_proximity: bool,
    ) -> (r: FaceChecker)
        ensures
            r.wf(),
            r@ == (Checker {
                threshold: dark_luma_threshold,
                history: seq![],
                last: None,
                spectrum,
                check_place: check_centering_and_proximity,
            }),
    {
        let r = FaceChecker {
            dark_luma_threshold,
            rgb_luma_history: VecDeque::new(),
            last_rgb_face_luma: None,
            spectrum,
            check_centering_and_proximity,
        };
        proof {
            assert(r@.history =~= seq![]);
        }
        r
    }

    pub fn dark_gate(spectrum: Spectrum, threshold: u8, frame: &Frame) -> (r: Option<CaptureStatus>)
        ensures
            r == (if gated(spectrum, threshold, *frame) {
                Some(CaptureStatus::TooDark)
            } else {
                None
            }),
    {
        match spectrum {
            Spectrum::Rgb => {
                if frame_is_too_dark(frame, threshold) {
                    Some(CaptureStatus::TooDark)
                } else {
                    None
                }
            },
            Spectrum::Ir => None,
        }
    }

    /// Begins a frame: the light of the last face is forgotten, and a dark colour frame is turned
    /// away before a face is looked for.
    pub fn begin_frame(&mut self, frame: &Frame) -> (r: Option<CaptureStatus>)
        requires
            old(self).wf(),
        ensures
            final(self).wf(),
            final(self)@ == (Checker { last: None, ..old(self)@ }),
            r == (if gated(old(self)@.spectrum, old(self)@.threshold, *frame) {
                Some(CaptureStatus::TooDark)
            } else {
                None
            }),
    {
        self.last_rgb_face_luma = None;
        FaceChecker::dark_gate(self.spectrum, self.dark_luma_threshold, frame)
    }

    /// Judges a frame from what was found in it: no face, or the surest one.
    pub fn capture_status(&mut self, found: Option<FaceFacts>) -> (r: Verdict)
        requires
            old(self).wf(),
        ensures
            final(self).wf(),
            match found {
                None => r == (Verdict { status: CaptureStatus::NoFace, with_face: false })
                    && final(self)@ == old(self)@,
                Some(facts) => r == face_verdict(old(self)@, facts) && final(self)@ == (
                if counts_light(old(self)@, facts) {
                    Checker {
                        history: recent(old(self)@.history, facts.face_luma->0),
                        last: Some(face_light(old(self)@, facts.face_luma->0)),
                        ..old(self)@
                    }
                } else {
                    old(self)@
                }),
            },
    {
        let facts = match found {
            None => return Verdict { status: CaptureStatus::NoFace, with_face: false },
            Some(facts) => facts,
        };
        if let Some(status) = geometry_status(
            facts.geometry,
            self.check_centering_and_proximity,
        ) {
            return Verdict { status, with_face: true };
        }
        if !facts.has_landmarks {
            return Verdict { status: CaptureStatus::NoFace, with_face: false };
        }
        let luma = match self.spectrum {
            Spectrum::Ir => return Verdict { status: CaptureStatus::Usable, with_face: true },
            Spectrum::Rgb => match facts.face_luma {
                None => return Verdict { status: CaptureStatus::TooDark, with_face: true },
                Some(luma) => luma,
            },
        };
        let ghost before = self.rgb_luma_history@;
        if self.rgb_luma_history.len() >= LUMA_HISTORY {
            self.rgb_luma_history.pop_front();
        }
        self.rgb_luma_history.push_back(luma);
        proof {
            assert(self.rgb_luma_history@ =~= recent(before, luma));
        }
        let total: u32 = total_of(&self.rgb_luma_history);
        let frames: u32 = self.rgb_luma_history.len() as u32;
        self.last_rgb_face_luma =
        Some(
            RgbFaceLuma {
                mean: luma,
                rolling_sum: total,
                rolling_frames: frames,
                threshold: self.dark_luma_threshold,
            },
        );
        proof {
            assert(self.dark_luma_threshold * frames <= 255 * 5) by (nonlinear_arith)
                requires
                    self.dark_luma_threshold <= 255,
                    frames <= 5,
            ;
        }
        let status = if luma >= self.dark_luma_threshold {
            CaptureStatus::Usable
        } else if total < self.dark_luma_threshold as u32 * frames {
            CaptureStatus::TooDark
        } else {
            CaptureStatus::Ready
        };
        Verdict { status, with_face: true }
    }

    pub fn rgb_face_luma(&self) -> (r: Option<RgbFaceLuma>)
        ensures
            r == self@.last,
    {
        self.last_rgb_face_luma
    }
}

/// A part of a frame.
#[derive(Clone, Copy, Debug, PartialEq, Eq, Structural)]
pub struct Rect {
    pub x: i32,
    pub y: i32,
    pub width: i32,
    pub height: i32,
}

pub open spec fn at_most(value: int, limit: int) -> int {
    if value < limit {
        value
    } else {
        limit
    }
}

/// The extent between two edges that are cut to a frame's.
pub open spec fn cut_extent(from: int, to: int, size: int) -> int {
    let extent = at_most(to, size) - at_most(from, size - 1);
    if extent > 0 {
        extent
    } else {
        0
    }
}

fn minimum(a: i32, b: i32) -> (r: i32)
    ensures
        r == at_most(a as int, b as int),
{
    if a < b {
        a
    } else {
        b
    }
}

/// A face's box cut to its frame. The edges are whole pixels, none below zero.
pub fn clamp_bbox(frame_width: i32, frame_height: i32, x1: i32, y1: i32, x2: i32, y2: i32) -> (r: Rect)
    requires
        frame_width >= 0,
        frame_height >= 0,
        x1 >= 0,
        y1 >= 0,
        x2 >= 0,
        y2 >= 0,
    ensures
        r.x == at_most(x1 as int, frame_width - 1),
        r.y == at_most(y1 as int, frame_height - 1),
        r.width == cut_extent(x1 as int, x2 as int, frame_width as int),
        r.height == cut_extent(y1 as int, y2 as int, frame_height as int),
        frame_width > 0 ==> 0 <= r.x && r.x + r.width <= frame_width,
        frame_height > 0 ==> 0 <= r.y && r.y + r.height <= frame_height,
{
    let left: i32 = minimum(x1, frame_width - 1);
    let top: i32 = minimum(y1, frame_height - 1);
    let right: i32 = minimum(x2, frame_width);
    let bottom: i32 = minimum(y2, frame_height);
    let width: i32 = if right > left {
        right - left
    } else {
        0
    };
    let height: i32 = if bottom > top {
        bottom - top
    } else {
        0
    };
    Rect { x: left, y: top, width, height }
}

/// A pose as the bits of its yaw and pitch in single precision.
#[derive(Clone, Copy, Debug, PartialEq, Eq, Structural)]
pub struct Pose {
    pub yaw: u32,
    pub pitch: u32,
}

/// The bits are those of a number, neither infinite nor undefined.
pub open spec fn finite(bits: u32) -> bool {
    bits % 0x8000_0000 < 0x7f80_0000
}

/// Both angles of a pose are numbers.
pub open spec fn measured(pose: Pose) -> bool {
    finite(pose.yaw) && finite(pose.pitch)
}

/// How many poses are compared.
pub const POSE_WINDOW: usize = 2;

/// The last poses of a person who is asked to hold one.
pub struct EnrollmentPoseStability {
    samples: VecDeque<Pose>,
}

/// The poses to compare after one more: nothing is left after one that is not a number.
pub open spec fn window_after(samples: Seq<Pose>, pose: Pose) -> Seq<Pose> {
    if !measured(pose) {
        seq![]
    } else if samples.len() >= POSE_WINDOW {
        samples.push(pose).skip(1)
    } else {
        samples.push(pose)
    }
}

/// The two poses to compare, once there are two.
pub open spec fn compared(samples: Seq<Pose>) -> Option<(Pose, Pose)> {
    if samples.len() < POSE_WINDOW {
        None
    } else {
        Some((samples[0], samples[1]))
    }
}

impl View for EnrollmentPoseStability {
    type V = Seq<Pose>;

    closed spec fn view(&self) -> Seq<Pose> {
        self.samples@
    }
}

impl EnrollmentPoseStability {
    pub open spec fn wf(&self) -> bool {
        self@.len() <= POSE_WINDOW
    }

    pub fn new() -> (r: EnrollmentPoseStability)
        ensures
            r.wf(),
            r@ == Seq::<Pose>::empty(),
    {
        EnrollmentPoseStability { samples: VecDeque::new() }
    }

    pub fn reset(&mut self)
        ensures
            final(self).wf(),
            final(self)@ == Seq::<Pose>::empty(),
    {
        self.samples.clear();
    }

    /// Takes one more pose. The two poses to compare come back once there are two.
    pub fn update(&mut self, pose: Pose) -> (r: Option<(Pose, Pose)>)
        requires
            old(self).wf(),
        ensures
            final(self).wf(),
            final(self)@ == window_after(old(self)@, pose),
            r == compared(final(self)@),
    {
        if pose.yaw % 0x8000_0000 >= 0x7f80_0000 || pose.pitch % 0x8000_0000 >= 0x7f80_0000 {
            self.reset();
            return None;
        }
        let ghost before = self.samples@;
        if self.samples.len() >= POSE_WINDOW {
            self.samples.pop_front();
        }
        self.samples.push_back(pose);
        proof {
            assert(self.samples@ =~= window_after(before, pose));
        }
        if self.samples.len() < POSE_WINDOW {
            return None;
        }
        Some((self.samples[0], self.samples[1]))
    }
}

/// Whether a pose is held: a prompt to turn one way does not mind motion that way.
pub open spec fn held(prompt: EnrollPrompt, stable_yaw: bool, stable_pitch: bool) -> bool {
    match prompt {
        EnrollPrompt::LookStraight => stable_yaw && stable_pitch,
        EnrollPrompt::LookUp => stable_yaw,
        EnrollPrompt::LookDown => stable_yaw,
        EnrollPrompt::LookLeft => stable_pitch,
        EnrollPrompt::LookRight => stable_pitch,
        EnrollPrompt::Other => false,
    }
}

pub fn pose_is_held(prompt: EnrollPrompt, stable_yaw: bool, stable_pitch: bool) -> (r: bool)
    ensures
        r == held(prompt, stable_yaw, stable_pitch),
{
    match prompt {
        EnrollPrompt::LookStraight => stable_yaw && stable_pitch,
        EnrollPrompt::LookUp => stable_yaw,
        EnrollPrompt::LookDown => stable_yaw,
        EnrollPrompt::LookLeft => stable_pitch,
        EnrollPrompt::LookRight => stable_pitch,
        EnrollPrompt::Other => false,
    }
}

/// What can happen to the poses of a person.
pub enum PoseEvent {
    Update(Pose),
    Reset,
}

/// The poses that are left after everything that happened since there were none.
pub open spec fn window_of(history: Seq<PoseEvent>) -> Seq<Pose>
    decreases history.len(),
{
    if history.len() == 0 {
        seq![]
    } else {
        match history.last() {
            PoseEvent::Update(pose) => window_after(window_of(history.drop_last()), pose),
            PoseEvent::Reset => seq![],
        }
    }
}

/// The measured pose that came in right before, if that was the last thing to happen.
pub open spec fn pose_before(history: Seq<PoseEvent>) -> Option<Pose> {
    if history.len() == 0 {
        None
    } else {
        match history.last() {
            PoseEvent::Update(pose) => if measured(pose) {
                Some(pose)
            } else {
                None
            },
            PoseEvent::Reset => None,
        }
    }
}

proof fn lemma_window_ends_with_the_last_pose(history: Seq<PoseEvent>)
    ensures
        window_of(history).len() <= POSE_WINDOW,
        match pose_before(history) {
            Some(pose) => window_of(history).len() > 0 && window_of(history).last() == pose,
            None => window_of(history).len() == 0,
        },
    decreases history.len(),
{
    if history.len() > 0 {
        lemma_window_ends_with_the_last_pose(history.drop_last());
    }
}

/// After any updates and resets, a pose is compared exactly when it is measured and the call before
/// was an update with a measured pose, and it is compared with that pose. A pose that is not measured
/// and a reset leave nothing to compare with.
pub proof fn a_pose_is_compared_with_the_one_right_before(history: Seq<PoseEvent>, pose: Pose)
    ensures
        window_of(seq![]) == Seq::<Pose>::empty(),
        window_of(history.push(PoseEvent::Reset)) == Seq::<Pose>::empty(),
        window_of(history.push(PoseEvent::Update(pose))) == window_after(window_of(history), pose),
        window_of(history).len() <= POSE_WINDOW,
        compared(window_after(window_of(history), pose)) == (match pose_before(history) {
            Some(before) if measured(pose) => Some((before, pose)),
            _ => None,
        }),
        !measured(pose) ==> window_of(history.push(PoseEvent::Update(pose))) == Seq::<Pose>::empty(),
{
    lemma_window_ends_with_the_last_pose(history);
    assert(history.push(PoseEvent::Reset).drop_last() =~= history);
    assert(history.push(PoseEvent::Update(pose)).drop_last() =~= history);
}

/// Whether a prompt is answered by a pose that came in after what happened before, where `near_yaw`
/// and `near_pitch` say whether two angles are close.
pub open spec fn answers(
    history: Seq<PoseEvent>,
    pose: Pose,
    prompt: EnrollPrompt,
    near_yaw: spec_fn(u32, u32) -> bool,
    near_pitch: spec_fn(u32, u32) -> bool,
) -> bool {
    match compared(window_after(window_of(history), pose)) {
        Some((before, now)) => held(
            prompt,
            near_yaw(before.yaw, now.yaw),
            near_pitch(before.pitch, now.pitch),
        ),
        None => false,
    }
}

/// A pose is held exactly when it and the one right before it are measured and close in the angles
/// that the prompt minds: both when looking straight, the yaw when looking up or down, the pitch when
/// looking to a side.
pub proof fn a_held_pose_is_close_to_the_one_right_before(
    history: Seq<PoseEvent>,
    pose: Pose,
    prompt: EnrollPrompt,
    near_yaw: spec_fn(u32, u32) -> bool,
    near_pitch: spec_fn(u32, u32) -> bool,
)
    ensures
        answers(history, pose, prompt, near_yaw, near_pitch) <==> {
            &&& measured(pose)
            &&& pose_before(history) matches Some(before)
            &&& prompt !is Other
            &&& (prompt is LookStraight || prompt is LookUp || prompt is LookDown) ==> near_yaw(
                before.yaw,
                pose.yaw,
            )
            &&& (prompt is LookStraight || prompt is LookLeft || prompt is LookRight) ==> near_pitch(
                before.pitch,
                pose.pitch,
            )
        },
{
    a_pose_is_compared_with_the_one_right_before(history, pose);
}

/// How a pose lies to the one that a person held when looking straight.
#[derive(Clone, Copy, Debug, PartialEq, Eq, Structural)]
pub struct Turn {
    pub up: bool,
    pub down: bool,
    pub left: bool,
    pub right: bool,
}

/// Whether a pose is the one that a prompt asks for. Looking straight is judged alone, a turn only
/// against a straight pose, and a pose that is not a number is never the right one.
pub open spec fn pose_matches(
    prompt: EnrollPrompt,
    pose: Pose,
    straight: bool,
    turn: Option<Turn>,
) -> bool {
    measured(pose) && match prompt {
        EnrollPrompt::LookStraight => straight,
        EnrollPrompt::LookUp => turn is Some && turn->0.up,
        EnrollPrompt::LookDown => turn is Some && turn->0.down,
        EnrollPrompt::LookLeft => turn is Some && turn->0.left,
        EnrollPrompt::LookRight => turn is Some && turn->0.right,
        EnrollPrompt::Other => false,
    }
}

pub fn enrollment_pose_matches(
    prompt: EnrollPrompt,
    pose: Pose,
    straight: bool,
    turn: Option<Turn>,
) -> (r: bool)
    ensures
        r == pose_matches(prompt, pose, straight, turn),
{
    if pose.yaw % 0x8000_0000 >= 0x7f80_0000 || pose.pitch % 0x8000_0000 >= 0x7f80_0000 {
        return false;
    }
    match (prompt, turn) {
        (EnrollPrompt::LookStraight, _) => straight,
        (EnrollPrompt::LookUp, Some(turn)) => turn.up,
        (EnrollPrompt::LookDown, Some(turn)) => turn.down,
        (EnrollPrompt::LookLeft, Some(turn)) => turn.left,
        (EnrollPrompt::LookRight, Some(turn)) => turn.right,
        _ => false,
    }
}

/// A clipped face is reported as clipped whether or not its place is checked, and only a face that is
/// not clipped can be well placed. Where the place is not checked nothing else is reported; where it
/// is, a face off the centre comes before one too far away, and that before one too close.
pub proof fn a_face_is_well_placed_only_where_nothing_is_wrong(geometry: Geometry, check_place: bool)
    ensures
        place_status(geometry, check_place) == Some(CaptureStatus::Clipped) <==> geometry.clipped,
        place_status(geometry, check_place) is None ==> !geometry.clipped,
        !check_place && !geometry.clipped ==> place_status(geometry, check_place) is None,
        place_status(geometry, true) is None <==> !geometry.clipped && !geometry.off_center
            && !geometry.below_minimum && !geometry.above_maximum,
        place_status(geometry, true) == Some(CaptureStatus::NotCentered) <==> !geometry.clipped
            && geometry.off_center,
        place_status(geometry, true) == Some(CaptureStatus::TooFar) <==> !geometry.clipped
            && !geometry.off_center && geometry.below_minimum,
        place_status(geometry, true) == Some(CaptureStatus::TooClose) <==> !geometry.clipped
            && !geometry.off_center && !geometry.below_minimum && geometry.above_maximum,
{
}

/// The last frame of a stream is lit exactly when it reaches the threshold. A dark one is a gap between
/// two flashes, unless it and the seven before it were all dark.
pub proof fn a_dark_frame_is_a_gap_until_eight_were_dark(threshold: u8, lumas: Seq<u8>)
    requires
        lumas.len() > 0,
    ensures
        kind_in_streak(stream_streak(threshold, lumas)) == IrFrameKind::Lit <==> lumas.last()
            >= threshold,
        kind_in_streak(stream_streak(threshold, lumas)) == IrFrameKind::EmitterDark <==> lumas.len()
            >= 8 && forall|i: int|
            lumas.len() - 8 <= i < lumas.len() ==> #[trigger] lumas[i] < threshold,
{
    lemma_streak(threshold, lumas, 8);
    lemma_streak(threshold, lumas, 1);
    assert(dark_run(threshold, lumas, 1) <==> lumas.last() < threshold) by {
        assert(lumas.last() == lumas[lumas.len() - 1]);
    }
}

/// What is known of a sensor after a stream of frames, each with its light and the time at which it
/// came.
pub open spec fn gate_after(threshold: u8, frames: Seq<(u8, u64)>) -> RgbWarmupGate
    decreases frames.len(),
{
    if frames.len() == 0 {
        RgbWarmupGate {
            threshold,
            first_frame_at: None,
            baseline: None,
            brightest: 0,
            frames: 0,
            lit_once: false,
        }
    } else {
        warmed(gate_after(threshold, frames.drop_last()), frames.last().0, frames.last().1)
    }
}

proof fn lemma_gate_after(threshold: u8, frames: Seq<(u8, u64)>)
    ensures
        ({
            let gate = gate_after(threshold, frames);
            &&& gate.threshold == threshold
            &&& gate.first_frame_at == (if frames.len() == 0 {
                None
            } else {
                Some(frames[0].1)
            })
            &&& gate.baseline == (if frames.len() == 0 {
                None
            } else {
                Some(frames[0].0)
            })
            &&& forall|i: int| 0 <= i < frames.len() ==> (#[trigger] frames[i]).0 <= gate.brightest
            &&& gate.brightest > 0 ==> exists|i: int|
                0 <= i < frames.len() && (#[trigger] frames[i]).0 == gate.brightest
            &&& gate.frames == (if frames.len() < u32::MAX {
                frames.len() as int
            } else {
                u32::MAX as int
            })
            &&& gate.lit_once <==> exists|i: int|
                0 <= i < frames.len() && (#[trigger] frames[i]).0 >= threshold
        }),
    decreases frames.len(),
{
    if frames.len() > 0 {
        let rest = frames.drop_last();
        lemma_gate_after(threshold, rest);
        let before = gate_after(threshold, rest);
        let gate = gate_after(threshold, frames);
        let n = frames.len() - 1;
        assert(frames[n] == frames.last());
        assert forall|i: int| 0 <= i < frames.len() implies (#[trigger] frames[i]).0
            <= gate.brightest by {
            if i < n {
                assert(rest[i] == frames[i]);
            }
        }
        if gate.brightest > 0 {
            if gate.brightest == before.brightest {
                let i = choose|i: int|
                    0 <= i < rest.len() && (#[trigger] rest[i]).0 == before.brightest;
                assert(frames[i] == rest[i]);
            } else {
                assert(frames[n].0 == gate.brightest);
            }
        }
        if before.lit_once {
            let i = choose|i: int| 0 <= i < rest.len() && (#[trigger] rest[i]).0 >= threshold;
            assert(frames[i] == rest[i]);
        }
        if exists|i: int| 0 <= i < frames.len() && (#[trigger] frames[i]).0 >= threshold {
            let i = choose|i: int| 0 <= i < frames.len() && (#[trigger] frames[i]).0 >= threshold;
            if i < n {
                assert(rest[i] == frames[i]);
            }
        }
        if rest.len() > 0 {
            assert(rest[0] == frames[0]);
        }
    }
}

/// Some frame of a stream was no darker than the threshold.
pub open spec fn some_lit(threshold: u8, frames: Seq<(u8, u64)>) -> bool {
    exists|i: int| 0 <= i < frames.len() && (#[trigger] frames[i]).0 >= threshold
}

/// Some frame of a stream was brighter than its first by two or more.
pub open spec fn brightened(frames: Seq<(u8, u64)>) -> bool {
    exists|i: int| 0 <= i < frames.len() && (#[trigger] frames[i]).0 >= frames[0].0 + 2
}

/// What a colour frame is follows from its stream: lit where it reaches the threshold; steadily dark
/// once a frame before it was lit; settled two seconds after the first frame; steadily dark after one
/// second and eight frames that did not brighten by two; and until then the sensor may still adjust.
pub proof fn a_sensor_has_its_grace_and_no_longer(
    threshold: u8,
    before: Seq<(u8, u64)>,
    luma: u8,
    now: u64,
)
    ensures
        ({
            let frames = before.push((luma, now));
            let since = if now > frames[0].1 {
                now - frames[0].1
            } else {
                0
            };
            let gate = gate_after(threshold, before);
            let kind = frame_kind(warmed(gate, luma, now), gate.lit_once, luma, now);
            &&& kind == RgbFrameKind::Lit <==> luma >= threshold
            &&& luma < threshold && some_lit(threshold, before) ==> kind == RgbFrameKind::SteadyDark
            &&& luma < threshold && !some_lit(threshold, before) ==> {
                &&& since >= 2_000_000_000 ==> kind == RgbFrameKind::SettledDark
                &&& since < 2_000_000_000 && since >= 1_000_000_000 && frames.len() >= 8
                    && !brightened(frames) ==> kind == RgbFrameKind::SteadyDark
                &&& since < 1_000_000_000 || frames.len() < 8 || brightened(frames) ==> since
                    >= 2_000_000_000 || kind == RgbFrameKind::WarmupDark
            }
        }),
{
    let frames = before.push((luma, now));
    lemma_gate_after(threshold, before);
    assert(frames.drop_last() =~= before);
    lemma_gate_after(threshold, frames);
    let gate = gate_after(threshold, before);
    let after = warmed(gate, luma, now);
    assert(after == gate_after(threshold, frames));
    if before.len() > 0 {
        assert(frames[0] == before[0]);
    }
    assert(some_lit(threshold, before) <==> gate.lit_once);
    assert(brightened(frames) <==> after.brightest - frames[0].0 >= 2) by {
        assert(frames[0].0 <= after.brightest);
        if after.brightest - frames[0].0 >= 2 {
            let i = choose|i: int|
                0 <= i < frames.len() && (#[trigger] frames[i]).0 == after.brightest;
            assert(frames[i].0 >= frames[0].0 + 2);
        }
        if brightened(frames) {
            let i = choose|i: int|
                0 <= i < frames.len() && (#[trigger] frames[i]).0 >= frames[0].0 + 2;
            assert(frames[i].0 <= after.brightest);
        }
    }
}

/// A history is the last five frames: one more is put behind, and the oldest leaves once there would be
/// six.
pub proof fn a_history_holds_the_last_five(history: Seq<u8>, luma: u8)
    requires
        history.len() <= 5,
    ensures
        recent(history, luma).len() == (if history.len() < 5 {
            history.len() + 1
        } else {
            5
        }),
        recent(history, luma).last() == luma,
        history.len() < 5 ==> recent(history, luma) == history.push(luma),
        history.len() == 5 ==> recent(history, luma) == history.skip(1).push(luma),
{
    if history.len() == 5 {
        assert(recent(history, luma) =~= history.skip(1).push(luma));
    }
}

/// The light of two histories together is that of each, and one frame's is its own.
pub proof fn light_adds_up(first: Seq<u8>, second: Seq<u8>, luma: u8)
    ensures
        luma_total(first + second) == luma_total(first) + luma_total(second),
        luma_total(seq![luma]) == luma,
        luma_total(seq![]) == 0,
    decreases second.len(),
{
    assert(seq![luma].drop_last() =~= seq![]);
    assert(luma_total(seq![luma].drop_last()) == 0);
    let all = first + second;
    if second.len() == 0 {
        assert(all =~= first);
    } else {
        light_adds_up(first, second.drop_last(), luma);
        assert(all.drop_last() =~= first + second.drop_last());
        assert(all.last() == second.last());
    }
}

/// A face that is lit is usable. A dark one is called too dark exactly when its last frames, five at
/// most, are dark on average too, and waits for a better frame otherwise.
pub proof fn one_dark_frame_among_lit_ones_is_not_too_dark(
    checker: Checker,
    luma: u8,
    frames: Seq<u8>,
)
    requires
        checker.history.len() < 5 ==> frames == checker.history.push(luma),
        checker.history.len() == 5 ==> frames == checker.history.skip(1).push(luma),
        checker.history.len() <= 5,
    ensures
        light_status(checker, luma) == CaptureStatus::Usable <==> luma >= checker.threshold,
        light_status(checker, luma) == CaptureStatus::TooDark <==> luma < checker.threshold
            && luma_total(frames) < checker.threshold * frames.len(),
        light_status(checker, luma) == CaptureStatus::Ready <==> luma < checker.threshold
            && luma_total(frames) >= checker.threshold * frames.len(),
        (forall|i: int| 0 <= i < frames.len() ==> #[trigger] frames[i] < checker.threshold)
            ==> light_status(checker, luma) == CaptureStatus::TooDark,
{
    a_history_holds_the_last_five(checker.history, luma);
    assert(frames == recent(checker.history, luma));
    if forall|i: int| 0 <= i < frames.len() ==> #[trigger] frames[i] < checker.threshold {
        assert(frames[frames.len() - 1] == luma);
        lemma_dark_total(frames, checker.threshold);
    }
}

proof fn lemma_dark_total(frames: Seq<u8>, threshold: u8)
    requires
        forall|i: int| 0 <= i < frames.len() ==> #[trigger] frames[i] < threshold,
    ensures
        luma_total(frames) <= threshold * frames.len(),
        frames.len() > 0 ==> luma_total(frames) < threshold * frames.len(),
    decreases frames.len(),
{
    if frames.len() > 0 {
        let rest = frames.drop_last();
        assert forall|i: int| 0 <= i < rest.len() implies #[trigger] rest[i] < threshold by {
            assert(rest[i] == frames[i]);
        }
        lemma_dark_total(rest, threshold);
        assert(frames[frames.len() - 1] < threshold);
        assert(threshold * frames.len() == threshold * rest.len() + threshold) by (nonlinear_arith)
            requires
                frames.len() == rest.len() + 1,
        ;
    } else {
        assert(threshold * frames.len() == 0) by (nonlinear_arith)
            requires
                frames.len() == 0,
        ;
    }
}

/// What comes of a frame with a face: what is wrong with its place, if anything; no face without
/// landmarks; and otherwise what its light makes of it, which for infrared is always enough. The face
/// goes with every verdict but that there is none.
pub proof fn a_face_is_judged_by_place_then_landmarks_then_light(checker: Checker, facts: FaceFacts)
    ensures
        ({
            let verdict = face_verdict(checker, facts);
            let place = place_status(facts.geometry, checker.check_place);
            &&& facts.geometry.clipped ==> verdict.status == CaptureStatus::Clipped
            &&& place matches Some(status) ==> verdict.status == status
            &&& verdict.with_face <==> verdict.status != CaptureStatus::NoFace
            &&& verdict.status == CaptureStatus::NoFace <==> place is None && !facts.has_landmarks
            &&& place is None && facts.has_landmarks ==> {
                &&& checker.spectrum == Spectrum::Ir ==> verdict.status == CaptureStatus::Usable
                &&& checker.spectrum == Spectrum::Rgb ==> (match facts.face_luma {
                    Some(luma) => verdict.status == light_status(checker, luma),
                    None => verdict.status == CaptureStatus::TooDark,
                })
            }
            &&& verdict.status == CaptureStatus::Usable ==> !facts.geometry.clipped
                && facts.has_landmarks
        }),
        counts_light(checker, facts) <==> place_status(facts.geometry, checker.check_place) is None
            && facts.has_landmarks && checker.spectrum == Spectrum::Rgb && facts.face_luma is Some,
{
}

/// What is kept of the light on a face: this frame's, and the sum and number of the last frames, five
/// at most.
pub proof fn the_light_of_a_face_is_that_of_its_last_frames(checker: Checker, luma: u8)
    requires
        checker.history.len() <= 5,
    ensures
        face_light(checker, luma).mean == luma,
        face_light(checker, luma).threshold == checker.threshold,
        face_light(checker, luma).rolling_frames == (if checker.history.len() < 5 {
            checker.history.len() + 1
        } else {
            5
        }),
        face_light(checker, luma).rolling_sum == luma + (if checker.history.len() < 5 {
            luma_total(checker.history)
        } else {
            luma_total(checker.history) - checker.history[0]
        }),
{
    a_history_holds_the_last_five(checker.history, luma);
    let frames = recent(checker.history, luma);
    let h = checker.history;
    if h.len() < 5 {
        assert(frames =~= h + seq![luma]);
        light_adds_up(h, seq![luma], luma);
    } else {
        assert(frames =~= h.skip(1) + seq![luma]);
        light_adds_up(h.skip(1), seq![luma], luma);
        assert(h =~= seq![h[0]] + h.skip(1));
        light_adds_up(seq![h[0]], h.skip(1), h[0]);
    }
    lemma_total_bound(frames);
}

proof fn lemma_total_bound(frames: Seq<u8>)
    ensures
        0 <= luma_total(frames) <= 255 * frames.len(),
    decreases frames.len(),
{
    if frames.len() > 0 {
        lemma_total_bound(frames.drop_last());
    }
}

/// A colour frame darker than the threshold is turned away, and an infrared frame never is.
pub proof fn only_dark_colour_frames_are_turned_away(spectrum: Spectrum, threshold: u8, frame: Frame)
    ensures
        !gated(Spectrum::Ir, threshold, frame),
        gated(Spectrum::Rgb, threshold, frame) <==> frame::mean_luma(frame) < threshold,
{
}

/// Cutting a box to its frame keeps a box that lies inside, never reaches over an edge, and leaves
/// nothing of a box that lies outside.
pub proof fn a_cut_box_is_what_lies_inside(from: int, to: int, size: int)
    requires
        size > 0,
        from >= 0,
    ensures
        from <= to <= size && from < size ==> at_most(from, size - 1) == from && cut_extent(
            from,
            to,
            size,
        ) == to - from,
        from < size && to > size ==> cut_extent(from, to, size) == size - from,
        to <= from && from < size ==> cut_extent(from, to, size) == 0,
        0 <= at_most(from, size - 1) < size,
        cut_extent(from, to, size) >= 0,
        at_most(from, size - 1) + cut_extent(from, to, size) <= size,
        from >= size ==> cut_extent(from, to, size) <= 1,
{
}

/// Bits are those of a number unless all eight bits of the exponent are set, whatever the sign.
pub proof fn numbers_have_a_finite_exponent(bits: u32)
    ensures
        finite(bits) <==> (bits as int / 0x80_0000) % 0x100 != 0xff,
        bits < 0x8000_0000 ==> finite(bits) == finite((bits + 0x8000_0000) as u32),
{
}

/// A pose answers a prompt exactly when it is measured and lies as the prompt asks: straight by
/// itself, and a turn only against a pose that was held straight.
pub proof fn a_turn_is_judged_against_a_straight_pose(
    prompt: EnrollPrompt,
    pose: Pose,
    straight: bool,
    turn: Option<Turn>,
)
    ensures
        !measured(pose) ==> !pose_matches(prompt, pose, straight, turn),
        measured(pose) ==> pose_matches(EnrollPrompt::LookStraight, pose, straight, turn)
            == straight,
        !pose_matches(EnrollPrompt::Other, pose, straight, turn),
        turn is None && prompt != EnrollPrompt::LookStraight ==> !pose_matches(
            prompt,
            pose,
            straight,
            turn,
        ),
        measured(pose) && turn is Some ==> {
            &&& pose_matches(EnrollPrompt::LookUp, pose, straight, turn) == (turn->0).up
            &&& pose_matches(EnrollPrompt::LookDown, pose, straight, turn) == (turn->0).down
            &&& pose_matches(EnrollPrompt::LookLeft, pose, straight, turn) == (turn->0).left
            &&& pose_matches(EnrollPrompt::LookRight, pose, straight, turn) == (turn->0).right
        },
{
}

} // verus!
