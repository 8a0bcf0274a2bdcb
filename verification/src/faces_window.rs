//! The main window: the list of enrolled faces, a test of authentication, and the guide over a
//! camera's picture.

use crate::face::CaptureStatus;
use crate::text;
use crate::text::CharClass;
use vstd::prelude::*;

verus! {

/// A face that is enrolled.
pub struct EnrolledFace {
    pub name: String,
    pub captures: u32,
    pub has_rgb: bool,
    pub has_ir: bool,
}

/// What the daemon answered when it was asked for the faces.
pub enum FaceListReply {
    Faces(Vec<EnrolledFace>),
    /// Nobody has enrolled.
    FileNotFound,
    /// The daemon is not up yet.
    NotActivatable,
    Failed(String),
}

/// What the window shows for an answer.
pub struct FacesPage {
    /// The title and text of the page that is shown in place of the list.
    pub status: Option<(&'static str, &'static str)>,
    pub rows: Vec<FaceRow>,
    /// Whether to ask again later, leaving the rows as they are.
    pub retry: bool,
    pub toast: Option<String>,
}

/// How long to wait before the daemon is asked again, in seconds.
pub const RETRY_SECONDS: u64 = 3;

/// A row of the list.
pub struct FaceRow {
    pub title: String,
    pub subtitle: String,
    pub rgb_badge: &'static str,
    pub ir_badge: &'static str,
}

pub struct Row {
    pub title: Seq<char>,
    pub subtitle: Seq<char>,
    pub rgb_badge: Seq<char>,
    pub ir_badge: Seq<char>,
}

impl View for FaceRow {
    type V = Row;

    open spec fn view(&self) -> Row {
        Row {
            title: self.title@,
            subtitle: self.subtitle@,
            rgb_badge: self.rgb_badge@,
            ir_badge: self.ir_badge@,
        }
    }
}

pub open spec fn rows_view(rows: Seq<FaceRow>) -> Seq<Row> {
    Seq::new(rows.len(), |i: int| rows[i]@)
}

pub open spec fn badge(present: bool) -> Seq<char> {
    if present {
        "badge-success"@
    } else {
        "badge-error"@
    }
}

pub open spec fn captures_shown(count: u32) -> Seq<char> {
    text::decimal(count as nat) + " capture"@ + (if count == 1 {
        ""@
    } else {
        "s"@
    })
}

pub open spec fn row_of(face: EnrolledFace) -> Row {
    Row {
        title: face.name@,
        subtitle: captures_shown(face.captures),
        rgb_badge: badge(face.has_rgb),
        ir_badge: badge(face.has_ir),
    }
}

pub open spec fn rows_of(faces: Seq<EnrolledFace>) -> Seq<Row> {
    Seq::new(faces.len(), |i: int| row_of(faces[i]))
}

fn badge_class(present: bool) -> (r: &'static str)
    ensures
        r@ == badge(present),
{
    if present {
        "badge-success"
    } else {
        "badge-error"
    }
}

pub fn face_row(face: &EnrolledFace) -> (r: FaceRow)
    ensures
        r@ == row_of(*face),
{
    let count = text::decimal_text(face.captures as u64);
    let plural = if face.captures == 1 {
        ""
    } else {
        "s"
    };
    FaceRow {
        title: face.name.clone(),
        subtitle: text::cat3(count.as_str(), " capture", plural),
        rgb_badge: badge_class(face.has_rgb),
        ir_badge: badge_class(face.has_ir),
    }
}

pub open spec fn page_status(reply: FaceListReply) -> Option<(Seq<char>, Seq<char>)> {
    match reply {
        FaceListReply::NotActivatable => Some(
            ("Daemon Starting"@, "Gaze daemon is starting up, please wait..."@),
        ),
        FaceListReply::Faces(faces) => if faces@.len() > 0 {
            None
        } else {
            Some(("No Faces Enrolled"@, "Press + to add your first face"@))
        },
        _ => Some(("No Faces Enrolled"@, "Press + to add your first face"@)),
    }
}

pub open spec fn page_rows(reply: FaceListReply) -> Seq<Row> {
    match reply {
        FaceListReply::Faces(faces) => rows_of(faces@),
        _ => seq![],
    }
}

/// What the window shows for the daemon's answer. A daemon that is starting is asked again; one that
/// fails counts as having no faces, and the failure is shown.
pub fn faces_page(reply: &FaceListReply) -> (r: FacesPage)
    ensures
        match r.status {
            Some((title, description)) => page_status(*reply) == Some((title@, description@)),
            None => page_status(*reply) is None,
        },
        rows_view(r.rows@) == page_rows(*reply),
        r.retry == (*reply is NotActivatable),
        text::optional(r.toast) == (match *reply {
            FaceListReply::Failed(error) => Some("Failed to load faces: "@ + error@),
            _ => None,
        }),
{
    let mut rows: Vec<FaceRow> = Vec::new();
    let mut status: Option<(&'static str, &'static str)> = Some(
        ("No Faces Enrolled", "Press + to add your first face"),
    );
    let mut toast: Option<String> = None;
    let mut retry = false;
    match reply {
        FaceListReply::Faces(faces) => {
            for i in 0..faces.len()
                invariant
                    rows@.len() == i,
                    forall|j: int| 0 <= j < i ==> (#[trigger] rows@[j])@ == row_of(faces@[j]),
            {
                rows.push(face_row(&faces[i]));
            }
            if faces.len() > 0 {
                status = None;
            }
        },
        FaceListReply::FileNotFound => {},
        FaceListReply::NotActivatable => {
            status = Some(("Daemon Starting", "Gaze daemon is starting up, please wait..."));
            retry = true;
        },
        FaceListReply::Failed(error) => {
            toast = Some(text::cat2("Failed to load faces: ", error.as_str()));
        },
    }
    proof {
        assert(rows_view(rows@) =~= page_rows(*reply));
    }
    FacesPage { status, rows, retry, toast }
}

pub open spec fn named(faces: Seq<EnrolledFace>, name: Seq<char>) -> bool {
    exists|i: int| 0 <= i < faces.len() && (#[trigger] faces[i]).name@ == name
}

/// Whether a face can be renamed to what was entered: something, and no name that is taken.
pub fn rename_is_valid(entered: &str, current: &str, faces: &Vec<EnrolledFace>) -> (r: bool)
    ensures
        r == ({
            let name = text::trimmed(entered@, CharClass::White);
            name.len() > 0 && name != current@ && !named(faces@, name)
        }),
{
    let chars = text::chars(entered);
    let name = text::trim(chars.as_slice(), CharClass::White);
    if name.len() == 0 || text::is_text(name, current) {
        return false;
    }
    for i in 0..faces.len()
        invariant
            name@ == text::trimmed(entered@, CharClass::White),
            forall|j: int| 0 <= j < i ==> (#[trigger] faces@[j]).name@ != name@,
    {
        if text::is_text(name, faces[i].name.as_str()) {
            proof {
                assert(faces@[i as int].name@ == name@);
            }
            return false;
        }
    }
    true
}

/// The name to ask the daemon for, or nothing where the entry is empty or the name as it is.
pub fn rename_target(entered: &str, current: &str) -> (r: Option<String>)
    ensures
        text::optional(r) == ({
            let name = text::trimmed(entered@, CharClass::White);
            if name.len() == 0 || name == current@ {
                None
            } else {
                Some(name)
            }
        }),
{
    let entered = text::chars(entered);
    let name = text::trim(entered.as_slice(), CharClass::White);
    if name.len() == 0 || text::is_text(name, current) {
        None
    } else {
        Some(text::string(name))
    }
}

pub fn renamed_text(old_name: &str, new_name: &str) -> (r: String)
    ensures
        r@ == "Renamed '"@ + old_name@ + "' to '"@ + new_name@ + "'"@,
{
    text::cat5("Renamed '", old_name, "' to '", new_name, "'")
}

/// How a failed request is shown.
pub fn failure_text(prefix: &str, error: &str) -> (r: String)
    ensures
        r@ == prefix@ + ": "@ + error@,
{
    text::cat3(prefix, ": ", error)
}

/// What a face scored.
pub struct FaceScore {
    pub name: String,
    pub rgb_passed: bool,
    pub ir_passed: bool,
}

/// What happened while a verdict was awaited.
pub enum VerifyEvent {
    Verdict { matched: bool, faces: Vec<FaceScore> },
    /// A signal that could not be read.
    Unreadable,
    StreamEnded,
    TimedOut,
}

/// What to show after a test of authentication, the face that passed, and whether the daemon has to
/// be told to stop.
pub struct VerifyOutcome {
    pub text: &'static str,
    pub matched_face: Option<String>,
    pub stop_daemon: bool,
}

/// The first face that passed in either spectrum.
pub open spec fn passed_face(faces: Seq<FaceScore>) -> Option<Seq<char>>
    decreases faces.len(),
{
    if faces.len() == 0 {
        None
    } else if faces[0].rgb_passed || faces[0].ir_passed {
        Some(faces[0].name@)
    } else {
        passed_face(faces.skip(1))
    }
}

fn find_passed_face(faces: &Vec<FaceScore>) -> (r: Option<String>)
    ensures
        text::optional(r) == passed_face(faces@),
{
    proof {
        assert(faces@.skip(0) =~= faces@);
    }
    for i in 0..faces.len()
        invariant
            passed_face(faces@) == passed_face(faces@.skip(i as int)),
    {
        if faces[i].rgb_passed || faces[i].ir_passed {
            return Some(faces[i].name.clone());
        }
        proof {
            assert(faces@.skip(i as int).skip(1) =~= faces@.skip(i as int + 1));
        }
    }
    None
}

pub open spec fn outcome_text(event: VerifyEvent) -> Seq<char> {
    match event {
        VerifyEvent::Verdict { matched, faces } => if matched {
            "✓ Authentication successful"@
        } else {
            "✗ Authentication failed"@
        },
        VerifyEvent::TimedOut => "✗ Verification timed out"@,
        _ => "✗ Verification failed"@,
    }
}

/// What comes of an event, or nothing where the next one has to be awaited. A verdict that does not
/// come in time is a failure, and so is a stream that ends without one.
pub fn verify_step(event: &VerifyEvent) -> (r: Option<VerifyOutcome>)
    ensures
        match r {
            None => *event is Unreadable,
            Some(outcome) => {
                &&& !(*event is Unreadable)
                &&& outcome.text@ == outcome_text(*event)
                &&& text::optional(outcome.matched_face) == (match *event {
                    VerifyEvent::Verdict { matched, faces } => if matched {
                        passed_face(faces@)
                    } else {
                        None
                    },
                    _ => None,
                })
                &&& outcome.stop_daemon == (*event is TimedOut)
            },
        },
{
    match event {
        VerifyEvent::Unreadable => None,
        VerifyEvent::Verdict { matched, faces } => {
            if *matched {
                Some(
                    VerifyOutcome {
                        text: "✓ Authentication successful",
                        matched_face: find_passed_face(faces),
                        stop_daemon: false,
                    },
                )
            } else {
                Some(
                    VerifyOutcome {
                        text: "✗ Authentication failed",
                        matched_face: None,
                        stop_daemon: false,
                    },
                )
            }
        },
        VerifyEvent::StreamEnded => Some(
            VerifyOutcome {
                text: "✗ Verification failed",
                matched_face: None,
                stop_daemon: false,
            },
        ),
        VerifyEvent::TimedOut => Some(
            VerifyOutcome {
                text: "✗ Verification timed out",
                matched_face: None,
                stop_daemon: true,
            },
        ),
    }
}

/// The colour of the guide.
#[derive(Clone, Copy, Debug, PartialEq, Eq, Structural)]
pub enum GuideColor {
    Faint,
    Grey,
    Amber,
    Green,
}

pub open spec fn color_of(status: CaptureStatus, active: bool) -> GuideColor {
    if !active {
        GuideColor::Faint
    } else if status == CaptureStatus::NoFace || status == CaptureStatus::Unused {
        GuideColor::Grey
    } else if status == CaptureStatus::Ready || status == CaptureStatus::Usable {
        GuideColor::Green
    } else {
        GuideColor::Amber
    }
}

pub fn guide_color(status: CaptureStatus, active: bool) -> (r: GuideColor)
    ensures
        r == color_of(status, active),
{
    if !active {
        return GuideColor::Faint;
    }
    match status {
        CaptureStatus::NoFace => GuideColor::Grey,
        CaptureStatus::Unused => GuideColor::Grey,
        CaptureStatus::Ready => GuideColor::Green,
        CaptureStatus::Usable => GuideColor::Green,
        _ => GuideColor::Amber,
    }
}

pub open spec fn label_of(status: CaptureStatus) -> Seq<char> {
    match status {
        CaptureStatus::Unused => "Camera Not Activated"@,
        CaptureStatus::NoFace => "No Face"@,
        CaptureStatus::TooDark => "Need More Light"@,
        CaptureStatus::NotCentered => "Not Centered"@,
        CaptureStatus::Clipped => "Face Clipped"@,
        CaptureStatus::TooFar => "Come Closer"@,
        CaptureStatus::TooClose => "Back Up"@,
        CaptureStatus::Ready => "Ready"@,
        CaptureStatus::Usable => "Ready"@,
    }
}

/// What the guide says while it is active.
pub fn guide_label(status: CaptureStatus) -> (r: &'static str)
    ensures
        r@ == label_of(status),
{
    match status {
        CaptureStatus::Unused => "Camera Not Activated",
        CaptureStatus::NoFace => "No Face",
        CaptureStatus::TooDark => "Need More Light",
        CaptureStatus::NotCentered => "Not Centered",
        CaptureStatus::Clipped => "Face Clipped",
        CaptureStatus::TooFar => "Come Closer",
        CaptureStatus::TooClose => "Back Up",
        CaptureStatus::Ready => "Ready",
        CaptureStatus::Usable => "Ready",
    }
}

/// The guide is green exactly when an active camera has a face that is ready.
pub proof fn green_means_ready(status: CaptureStatus, active: bool)
    ensures
        color_of(status, active) == GuideColor::Green <==> active && label_of(status)
            == "Ready"@,
{
    reveal_strlit("Ready");
    reveal_strlit("Camera Not Activated");
    reveal_strlit("No Face");
    reveal_strlit("Need More Light");
    reveal_strlit("Not Centered");
    reveal_strlit("Face Clipped");
    reveal_strlit("Come Closer");
    reveal_strlit("Back Up");
    assert("Ready"@.len() == 5);
    assert("No Face"@.len() == 7);
    assert("Back Up"@.len() == 7);
}

/// Every face has a row of its own, in order, with its name, its captures and a badge for each
/// spectrum.
pub proof fn every_face_has_a_row(faces: Seq<EnrolledFace>, i: int)
    requires
        0 <= i < faces.len(),
    ensures
        rows_of(faces).len() == faces.len(),
        rows_of(faces)[i].title == faces[i].name@,
        rows_of(faces)[i].subtitle == captures_shown(faces[i].captures),
        rows_of(faces)[i].rgb_badge == "badge-success"@ <==> faces[i].has_rgb,
        rows_of(faces)[i].ir_badge == "badge-success"@ <==> faces[i].has_ir,
        rows_of(faces)[i].rgb_badge == "badge-error"@ <==> !faces[i].has_rgb,
        rows_of(faces)[i].ir_badge == "badge-error"@ <==> !faces[i].has_ir,
{
    reveal_strlit("badge-success");
    reveal_strlit("badge-error");
    assert("badge-success"@.len() == 13 && "badge-error"@.len() == 11);
}

/// One capture is counted in the singular, and every other number in the plural.
pub proof fn captures_are_counted_in_words(count: u32)
    ensures
        captures_shown(1) == text::decimal(1) + " capture"@,
        count != 1 ==> captures_shown(count) == text::decimal(count as nat) + " captures"@,
{
    reveal_strlit(" capture");
    reveal_strlit(" captures");
    reveal_strlit("s");
    reveal_strlit("");
    assert(" captures"@ =~= " capture"@ + "s"@);
    assert(captures_shown(1) =~= text::decimal(1) + " capture"@);
    if count != 1 {
        assert(captures_shown(count) =~= text::decimal(count as nat) + " captures"@);
    }
}

/// The page has a row for each face that was answered, and a status exactly where there is none; a
/// daemon that is starting is told apart from having no faces.
pub proof fn a_page_has_rows_or_a_status(reply: FaceListReply)
    ensures
        page_status(reply) is None <==> page_rows(reply).len() > 0,
        reply matches FaceListReply::Faces(faces) ==> page_rows(reply) == rows_of(faces@),
        !(reply is Faces) ==> page_rows(reply).len() == 0,
        reply is NotActivatable ==> page_status(reply) is Some && (page_status(reply)->0).0
            == "Daemon Starting"@,
        !(reply is NotActivatable) ==> (page_status(reply) matches Some((title, text)) ==> title
            == "No Faces Enrolled"@),
{
}

/// A name is taken exactly when some face has it, wherever it stands in the list.
pub proof fn a_name_is_taken_by_any_face(faces: Seq<EnrolledFace>, name: Seq<char>, i: int)
    requires
        0 <= i < faces.len(),
    ensures
        named(faces, faces[i].name@),
        !named(faces, name) ==> faces[i].name@ != name,
        !named(seq![], name),
{
}

/// The face that passed is the first that passed in either spectrum.
pub proof fn the_first_face_that_passed_is_named(faces: Seq<FaceScore>, n: int)
    requires
        0 <= n <= faces.len(),
        forall|i: int|
            0 <= i < n ==> !(#[trigger] faces[i]).rgb_passed && !faces[i].ir_passed,
    ensures
        n < faces.len() && (faces[n].rgb_passed || faces[n].ir_passed) ==> passed_face(faces)
            == Some(faces[n].name@),
        n == faces.len() ==> passed_face(faces) is None,
    decreases n,
{
    if n > 0 {
        let rest = faces.skip(1);
        assert(!faces[0].rgb_passed && !faces[0].ir_passed);
        assert forall|i: int| 0 <= i < n - 1 implies !(#[trigger] rest[i]).rgb_passed
            && !rest[i].ir_passed by {
            assert(rest[i] == faces[i + 1]);
        }
        the_first_face_that_passed_is_named(rest, n - 1);
        if n < faces.len() {
            assert(rest[n - 1] == faces[n]);
        }
    }
}

/// A test succeeds exactly where the verdict says that a face matched.
pub proof fn a_test_succeeds_only_by_a_verdict(event: VerifyEvent)
    ensures
        outcome_text(event) == "✓ Authentication successful"@ <==> (
        event matches VerifyEvent::Verdict { matched, faces } && matched),
        event is TimedOut ==> outcome_text(event) == "✗ Verification timed out"@,
        (event matches VerifyEvent::Verdict { matched, faces } && !matched) ==> outcome_text(event)
            == "✗ Authentication failed"@,
        event is Unreadable || event is StreamEnded ==> outcome_text(event)
            == "✗ Verification failed"@,
{
    reveal_strlit("✓ Authentication successful");
    reveal_strlit("✗ Authentication failed");
    reveal_strlit("✗ Verification timed out");
    reveal_strlit("✗ Verification failed");
    assert("✓ Authentication successful"@[0] == '✓');
    assert("✗ Authentication failed"@[0] == '✗');
    assert("✗ Verification timed out"@[0] == '✗');
    assert("✗ Verification failed"@[0] == '✗');
}

/// The guide is faint exactly where its camera is not active, grey where there is no face to guide,
/// and amber exactly where there is something to mend.
pub proof fn the_guide_has_one_colour_for_each_need(status: CaptureStatus, active: bool)
    ensures
        color_of(status, active) == GuideColor::Faint <==> !active,
        color_of(status, active) == GuideColor::Grey <==> active && (status == CaptureStatus::NoFace
            || status == CaptureStatus::Unused),
        color_of(status, active) == GuideColor::Amber <==> active && (status
            == CaptureStatus::TooDark || status == CaptureStatus::NotCentered || status
            == CaptureStatus::Clipped || status == CaptureStatus::TooFar || status
            == CaptureStatus::TooClose),
        label_of(CaptureStatus::TooDark) == "Need More Light"@,
        label_of(CaptureStatus::NotCentered) == "Not Centered"@,
        label_of(CaptureStatus::Clipped) == "Face Clipped"@,
        label_of(CaptureStatus::TooFar) == "Come Closer"@,
        label_of(CaptureStatus::TooClose) == "Back Up"@,
        label_of(CaptureStatus::NoFace) == "No Face"@,
        label_of(CaptureStatus::Unused) == "Camera Not Activated"@,
        RETRY_SECONDS == 3,
{
}

} // verus!
