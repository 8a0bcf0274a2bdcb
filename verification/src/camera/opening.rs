//! Opening a camera: what to open, what to retry, and what to say when it fails.

use crate::camera;
use crate::camera::devices::Scan;
use crate::camera::{classify_source, is_pipewire_element, resolve_node, SourceElement};
use crate::camera::{devices, nodes};
use crate::led::IrDevice;
use crate::text;
use crate::text::CharClass;
use vstd::prelude::*;

verus! {

pub const DEVICE_SETTLE_TIMEOUT_MS: u64 = 100;

pub const INTERRUPTIBLE_POLL_TIMEOUT_MS: u64 = 100;

/// Long enough for a busy device to reject the stream, short enough not to sit through a live source
/// that has not produced its first buffer.
pub const PIPELINE_START_TIMEOUT_MS: u64 = 500;

/// Where udev links the nodes by path.
pub const V4L2_BY_PATH_DIR: &'static str = "/dev/v4l/by-path";

pub open spec fn pipewire_socket(uid: u32) -> Seq<char> {
    "/run/user/"@ + text::decimal(uid as nat) + "/pipewire-0"@
}

/// The PipeWire socket of a user.
pub fn pipewire_socket_path(uid: u32) -> (r: String)
    ensures
        r@ == pipewire_socket(uid),
{
    let uid = text::decimal_text(uid as u64);
    text::cat3("/run/user/", uid.as_str(), "/pipewire-0")
}

/// The user whose PipeWire session is used: the one that the capture thread was started for, whatever
/// the default has become since, or else the default.
pub fn current_pipewire_uid(thread: Option<Option<u32>>, default: Option<u32>) -> (r: Option<u32>)
    ensures
        r == (match thread {
            Some(uid) => uid,
            None => default,
        }),
{
    match thread {
        Some(uid) => uid,
        None => default,
    }
}

/// The error is that another program holds the device.
pub open spec fn says_busy(detail: Seq<char>) -> bool {
    text::mentions(text::lowered(detail), "busy"@) || text::mentions(
        text::lowered(detail),
        "ebusy"@,
    )
}

pub fn device_is_busy(detail: &str) -> (r: bool)
    ensures
        r == says_busy(detail@),
{
    let detail = text::lower(text::chars(detail).as_slice());
    text::contains(detail.as_slice(), "busy") || text::contains(detail.as_slice(), "ebusy")
}

/// What a failed PipeWire open may retry through. Only the bare element means any camera; a named
/// target means one camera, which may be retried only through its own node.
#[derive(Debug, PartialEq, Eq)]
pub enum V4l2Fallback {
    AnyDevice,
    SameNode(String),
    Nothing,
}

pub enum Fallback {
    AnyDevice,
    SameNode(Seq<char>),
    Nothing,
}

impl View for V4l2Fallback {
    type V = Fallback;

    open spec fn view(&self) -> Fallback {
        match self {
            V4l2Fallback::AnyDevice => Fallback::AnyDevice,
            V4l2Fallback::SameNode(target) => Fallback::SameNode(target@),
            V4l2Fallback::Nothing => Fallback::Nothing,
        }
    }
}

/// The value of the first field that begins with the prefix.
pub open spec fn field_value(fields: Seq<Seq<char>>, prefix: Seq<char>) -> Option<Seq<char>>
    decreases fields.len(),
{
    if fields.len() == 0 {
        None
    } else if text::starts(fields[0], prefix) {
        text::without_prefix(fields[0], prefix)
    } else {
        field_value(fields.skip(1), prefix)
    }
}

fn find_field<'a>(fields: &Vec<&'a [char]>, prefix: &str) -> (r: Option<&'a [char]>)
    ensures
        text::slice_view(r) == field_value(text::views(fields@), prefix@),
{
    let ghost all = text::views(fields@);
    proof {
        assert(all.skip(0) =~= all);
    }
    for i in 0..fields.len()
        invariant
            all == text::views(fields@),
            field_value(all, prefix@) == field_value(all.skip(i as int), prefix@),
    {
        proof {
            assert(all[i as int] == fields@[i as int]@);
        }
        if let Some(value) = text::strip_prefix(fields[i], prefix) {
            return Some(value);
        }
        proof {
            assert(all.skip(i as int).skip(1) =~= all.skip(i as int + 1));
        }
    }
    None
}

pub open spec fn fallback_of(element: Seq<char>) -> Fallback {
    if element == "pipewiresrc"@ {
        Fallback::AnyDevice
    } else {
        match text::without_prefix(element, "pipewiresrc "@) {
            None => Fallback::Nothing,
            Some(fields) => match field_value(
                text::words_of(fields, CharClass::White),
                "target-object="@,
            ) {
                None => Fallback::Nothing,
                Some(target) => {
                    let target = text::trimmed(target, CharClass::Quote);
                    if target.len() == 0 {
                        Fallback::Nothing
                    } else {
                        Fallback::SameNode(target)
                    }
                },
            },
        }
    }
}

pub fn v4l2_fallback_for(element: &str) -> (r: V4l2Fallback)
    ensures
        r@ == fallback_of(element@),
{
    let element = text::chars(element);
    if text::is_text(element.as_slice(), "pipewiresrc") {
        return V4l2Fallback::AnyDevice;
    }
    let fields = match text::strip_prefix(element.as_slice(), "pipewiresrc ") {
        None => return V4l2Fallback::Nothing,
        Some(fields) => fields,
    };
    let words = text::words(fields, CharClass::White);
    match find_field(&words, "target-object=") {
        None => V4l2Fallback::Nothing,
        Some(target) => {
            let target = text::trim(target, CharClass::Quote);
            if target.len() == 0 {
                V4l2Fallback::Nothing
            } else {
                V4l2Fallback::SameNode(text::string(target))
            }
        },
    }
}

/// A descriptor is already among the properties.
pub open spec fn names_descriptor(element: Seq<char>) -> bool {
    field_value(text::words_of(element, CharClass::White), "fd="@) is Some
}

pub open spec fn bound_to_descriptor(element: Seq<char>, fd: int) -> Seq<char> {
    if camera::pipewire_element(element) && !names_descriptor(element) {
        element + " fd="@ + text::signed(fd)
    } else {
        element
    }
}

/// A PipeWire element with the descriptor of the session that it is to use. One that names a
/// descriptor already, and any other element, stays as it is.
pub fn bind_pipewire_fd(element: &str, fd: i32) -> (r: String)
    ensures
        r@ == bound_to_descriptor(element@, fd as int),
{
    let chars = text::chars(element);
    let words = text::words(chars.as_slice(), CharClass::White);
    let already_bound = find_field(&words, "fd=").is_some();
    if is_pipewire_element(element) && !already_bound {
        let fd = text::signed_text(fd);
        text::cat3(element, " fd=", fd.as_str())
    } else {
        element.to_owned()
    }
}

/// The stream modes of a camera. Some single-node modules silently stay in colour unless their
/// infrared stream is asked for uncompressed at one resolution.
pub open spec fn pipeline_of(element: Seq<char>, force_ir_yuy2: bool) -> Seq<char> {
    if force_ir_yuy2 {
        element
            + " ! video/x-raw,format=YUY2,width=640,height=480,pixel-aspect-ratio=1/1 ! videoconvert ! videoscale ! appsink name=gaze_sink"@
    } else {
        element
            + " ! video/x-raw,pixel-aspect-ratio=1/1; image/jpeg ! decodebin ! videoconvert ! videoscale ! appsink name=gaze_sink"@
    }
}

pub fn camera_pipeline(element: &str, force_ir_yuy2: bool) -> (r: String)
    ensures
        r@ == pipeline_of(element@, force_ir_yuy2),
{
    if force_ir_yuy2 {
        text::cat2(
            element,
            " ! video/x-raw,format=YUY2,width=640,height=480,pixel-aspect-ratio=1/1 ! videoconvert ! videoscale ! appsink name=gaze_sink",
        )
    } else {
        text::cat2(
            element,
            " ! video/x-raw,pixel-aspect-ratio=1/1; image/jpeg ! decodebin ! videoconvert ! videoscale ! appsink name=gaze_sink",
        )
    }
}

/// What is opened for a source.
pub struct OpenPlan {
    pub element: String,
    pub force_ir_yuy2: bool,
    /// The user whose PipeWire session the element is to be bound to.
    pub session: Option<u32>,
    pub fallback: V4l2Fallback,
}

pub struct Plan {
    pub element: Seq<char>,
    pub forced: bool,
    pub session: Option<u32>,
    pub fallback: Fallback,
}

impl View for OpenPlan {
    type V = Plan;

    open spec fn view(&self) -> Plan {
        Plan {
            element: self.element@,
            forced: self.force_ir_yuy2,
            session: self.session,
            fallback: self.fallback@,
        }
    }
}

pub open spec fn plan_of(element: Seq<char>, forced: bool, uid: Option<u32>) -> Plan {
    Plan {
        element,
        forced,
        session: if camera::pipewire_element(element) {
            uid
        } else {
            None
        },
        fallback: fallback_of(element),
    }
}

pub open spec fn missing_usb_camera(vid: u16, pid: u16, want_color: bool) -> Seq<char> {
    "no "@ + (if want_color {
        "color"@
    } else {
        "IR"@
    }) + " camera found for USB "@ + text::padded(vid as nat, 16, 4) + ":"@ + text::padded(
        pid as nat,
        16,
        4,
    )
}

/// What a source is opened as, or why it cannot be.
pub open spec fn planned(
    source: Seq<char>,
    want_color: bool,
    scan: Scan,
    known: Seq<IrDevice>,
    uid: Option<u32>,
) -> Result<Plan, Seq<char>> {
    match camera::classified(source, want_color) {
        camera::Source::Refused(error) => Err(error),
        camera::Source::Element(element) => Ok(
            plan_of(
                element,
                match camera::resolved_node(source, false, scan, known) {
                    Some(node) => devices::node_forced_mode(known, scan.ids@, node, want_color),
                    None => false,
                },
                uid,
            ),
        ),
        camera::Source::Usb(vid, pid, want_color) => match nodes::usb_video_node(
            scan,
            vid,
            pid,
            want_color,
            known,
        ) {
            None => Err(missing_usb_camera(vid, pid, want_color)),
            Some(node) => Ok(
                plan_of(
                    "v4l2src device="@ + node,
                    devices::forced_mode(known, vid, pid, want_color),
                    uid,
                ),
            ),
        },
    }
}

fn make_plan(element: String, force_ir_yuy2: bool, uid: Option<u32>) -> (r: OpenPlan)
    ensures
        r@ == plan_of(element@, force_ir_yuy2, uid),
{
    let session = if is_pipewire_element(element.as_str()) {
        uid
    } else {
        None
    };
    let fallback = v4l2_fallback_for(element.as_str());
    OpenPlan { element, force_ir_yuy2, session, fallback }
}

pub fn open_plan(
    source: &str,
    want_color: bool,
    scan: &Scan,
    known: &Vec<IrDevice>,
    uid: Option<u32>,
) -> (r: Result<OpenPlan, String>)
    ensures
        match r {
            Ok(plan) => planned(source@, want_color, *scan, known@, uid) == Ok::<_, Seq<char>>(
                plan@,
            ),
            Err(error) => planned(source@, want_color, *scan, known@, uid) == Err::<Plan, _>(
                error@,
            ),
        },
{
    match classify_source(source, want_color) {
        Err(error) => Err(error),
        Ok(SourceElement::Element(element)) => {
            let forced = match resolve_node(source, scan, known) {
                Some(node) => devices::node_requires_forced_ir_yuy2(
                    known,
                    &scan.ids,
                    node.as_str(),
                    want_color,
                ),
                None => false,
            };
            Ok(make_plan(element, forced, uid))
        },
        Ok(SourceElement::ResolveUsb { vid, pid, want_color }) => {
            match nodes::resolve_usb_video_node(scan, vid, pid, want_color, known) {
                None => {
                    let spectrum = if want_color {
                        "color"
                    } else {
                        "IR"
                    };
                    let vid = text::hex_text(vid as u64, 4);
                    let pid = text::hex_text(pid as u64, 4);
                    let mut error = text::cat5(
                        "no ",
                        spectrum,
                        " camera found for USB ",
                        vid.as_str(),
                        ":",
                    );
                    error.append(pid.as_str());
                    Err(error)
                },
                Some(node) => {
                    let element = text::cat2("v4l2src device=", node.as_str());
                    let forced = devices::requires_forced_ir_yuy2(known, vid, pid, want_color);
                    Ok(make_plan(element, forced, uid))
                },
            }
        },
    }
}

/// The node that a failed open is retried through.
pub open spec fn fallback_node(fallback: Fallback, want_color: bool, scan: Scan) -> Option<
    Seq<char>,
> {
    match fallback {
        Fallback::AnyDevice => nodes::first_node(scan, want_color),
        Fallback::SameNode(target) => nodes::target_node(scan, target, want_color),
        Fallback::Nothing => None,
    }
}

/// What to open after opening failed, or the error that is left: the one that came, where nothing may
/// be tried in its place.
pub open spec fn retried(
    fallback: Fallback,
    want_color: bool,
    scan: Scan,
    known: Seq<IrDevice>,
    error: Seq<char>,
) -> Result<(Seq<char>, bool), Seq<char>> {
    if fallback is Nothing {
        Err(error)
    } else {
        match fallback_node(fallback, want_color, scan) {
            None => Err(
                "PipeWire camera failed and no V4L2 fallback device was found: "@ + error,
            ),
            Some(node) => Ok(
                (
                    "v4l2src device="@ + node,
                    devices::node_forced_mode(known, scan.ids@, node, want_color),
                ),
            ),
        }
    }
}

pub fn open_retry(
    fallback: &V4l2Fallback,
    want_color: bool,
    scan: &Scan,
    known: &Vec<IrDevice>,
    error: String,
) -> (r: Result<(String, bool), String>)
    ensures
        match r {
            Ok((element, forced)) => retried(fallback@, want_color, *scan, known@, error@) == Ok::<
                _,
                Seq<char>,
            >((element@, forced)),
            Err(left) => retried(fallback@, want_color, *scan, known@, error@) == Err::<
                (Seq<char>, bool),
                _,
            >(left@),
        },
{
    let node = match fallback {
        V4l2Fallback::AnyDevice => nodes::first_v4l2_node(scan, want_color),
        V4l2Fallback::SameNode(target) => nodes::node_from_pipewire_target(
            scan,
            target.as_str(),
            want_color,
        ),
        V4l2Fallback::Nothing => return Err(error),
    };
    match node {
        None => Err(
            text::cat2(
                "PipeWire camera failed and no V4L2 fallback device was found: ",
                error.as_str(),
            ),
        ),
        Some(node) => {
            let forced = devices::node_requires_forced_ir_yuy2(
                known,
                &scan.ids,
                node.as_str(),
                want_color,
            );
            Ok((text::cat2("v4l2src device=", node.as_str()), forced))
        },
    }
}

/// Naming one camera never opens another one: a pinned target is retried only through a node that is
/// linked for it.
pub proof fn a_pinned_camera_is_never_substituted(
    target: Seq<char>,
    want_color: bool,
    scan: Scan,
    known: Seq<IrDevice>,
    error: Seq<char>,
)
    ensures
        match retried(Fallback::SameNode(target), want_color, scan, known, error) {
            Ok((element, _)) => nodes::by_path_of(target) is Some && exists|node: Seq<char>|
                element == "v4l2src device="@ + node && #[trigger] nodes::linked_nodes(
                    scan.links@,
                    nodes::by_path_of(target)->0,
                ).contains(node),
            Err(_) => true,
        },
{
    nodes::a_target_resolves_to_its_own_node(scan, target, want_color);
}

pub open spec fn start_failure(
    source: Seq<char>,
    error: Seq<char>,
    detail: Option<Seq<char>>,
) -> Seq<char> {
    match detail {
        Some(detail) => if says_busy(detail) {
            "The camera is already in use by another program ("@ + source + "): "@ + detail
        } else {
            "Failed to start pipeline for "@ + source + ": "@ + error + " ("@ + detail + ")"@
        },
        None => "Failed to start pipeline for "@ + source + ": "@ + error,
    }
}

/// Why a pipeline did not start, from the state change's error and what was posted on its bus.
pub fn start_error(source: &str, error: &str, detail: Option<&str>) -> (r: String)
    ensures
        r@ == start_failure(source@, error@, text::optional_str(detail)),
{
    match detail {
        Some(detail) => {
            if device_is_busy(detail) {
                text::cat4(
                    "The camera is already in use by another program (",
                    source,
                    "): ",
                    detail,
                )
            } else {
                let mut r = text::cat4("Failed to start pipeline for ", source, ": ", error);
                r.append(" (");
                r.append(detail);
                r.append(")");
                r
            }
        },
        None => text::cat4("Failed to start pipeline for ", source, ": ", error),
    }
}

/// A message from a pipeline's bus.
pub enum BusMessage {
    Error { error: String, debug: Option<String> },
    Eos,
    Other,
}

pub open spec fn error_detail(error: String, debug: Option<String>) -> Seq<char> {
    error@ + ": "@ + camera::given_or_empty(text::optional(debug))
}

fn detail_text(error: &String, debug: &Option<String>) -> (r: String)
    ensures
        r@ == error_detail(*error, *debug),
{
    match debug {
        Some(debug) => text::cat3(error.as_str(), ": ", debug.as_str()),
        None => {
            let r = text::cat2(error.as_str(), ": ");
            proof {
                assert(r@ =~= error@ + ": "@ + Seq::<char>::empty());
            }
            r
        },
    }
}

/// The first error on the bus.
pub open spec fn first_error(messages: Seq<BusMessage>) -> Option<Seq<char>>
    decreases messages.len(),
{
    if messages.len() == 0 {
        None
    } else {
        match messages[0] {
            BusMessage::Error { error, debug } => Some(error_detail(error, debug)),
            _ => first_error(messages.skip(1)),
        }
    }
}

pub fn bus_error_detail(messages: &Vec<BusMessage>) -> (r: Option<String>)
    ensures
        text::optional(r) == first_error(messages@),
{
    proof {
        assert(messages@.skip(0) =~= messages@);
    }
    for i in 0..messages.len()
        invariant
            first_error(messages@) == first_error(messages@.skip(i as int)),
    {
        if let BusMessage::Error { error, debug } = &messages[i] {
            return Some(detail_text(error, debug));
        }
        proof {
            assert(messages@.skip(i as int).skip(1) =~= messages@.skip(i as int + 1));
        }
    }
    None
}

/// Why a stream that reported an error ended.
pub open spec fn end_reason(detail: Seq<char>) -> Seq<char> {
    if says_busy(detail) {
        "The camera is already in use by another program: "@ + detail
    } else {
        detail
    }
}

/// What the bus says of a stream: that it failed, that it ended, or nothing.
pub enum BusVerdict {
    Failed(Seq<char>),
    Ended,
    Silent,
}

pub open spec fn bus_verdict(messages: Seq<BusMessage>) -> BusVerdict
    decreases messages.len(),
{
    if messages.len() == 0 {
        BusVerdict::Silent
    } else {
        match messages[0] {
            BusMessage::Error { error, debug } => BusVerdict::Failed(error_detail(error, debug)),
            BusMessage::Eos => BusVerdict::Ended,
            BusMessage::Other => bus_verdict(messages.skip(1)),
        }
    }
}

#[derive(Clone, Copy, Debug, PartialEq, Eq, Structural)]
pub enum PollEnd {
    Timeout,
    Ended,
}

/// A stream of frames, with the reason why it ended where the pipeline gave one.
pub struct Stream {
    stream_error: Option<String>,
}

impl View for Stream {
    type V = Option<Seq<char>>;

    closed spec fn view(&self) -> Option<Seq<char>> {
        text::optional(self.stream_error)
    }
}

impl Stream {
    pub fn new() -> (r: Stream)
        ensures
            r@ is None,
    {
        Stream { stream_error: None }
    }

    /// What it means that no frame came. The bus is read before the sink's own flag, because an
    /// element that fails also ends the stream, and the flag alone would hide the reason.
    pub fn no_frame(
        &mut self,
        messages: &Vec<BusMessage>,
        sink_at_end: bool,
        running: bool,
    ) -> (r: PollEnd)
        ensures
            match bus_verdict(messages@) {
                BusVerdict::Failed(detail) => r == PollEnd::Ended && final(self)@ == Some(
                    end_reason(detail),
                ),
                BusVerdict::Ended => r == PollEnd::Ended && final(self)@ == old(self)@,
                BusVerdict::Silent => (r == PollEnd::Ended) == (sink_at_end || !running)
                    && final(self)@ == old(self)@,
            },
    {
        proof {
            assert(messages@.skip(0) =~= messages@);
        }
        for i in 0..messages.len()
            invariant
                self@ == old(self)@,
                bus_verdict(messages@) == bus_verdict(messages@.skip(i as int)),
        {
            match &messages[i] {
                BusMessage::Error { error, debug } => {
                    let detail = detail_text(error, debug);
                    if device_is_busy(detail.as_str()) {
                        self.stream_error =
                        Some(
                            text::cat2(
                                "The camera is already in use by another program: ",
                                detail.as_str(),
                            ),
                        );
                    } else {
                        self.stream_error = Some(detail);
                    }
                    return PollEnd::Ended;
                },
                BusMessage::Eos => {
                    return PollEnd::Ended;
                },
                BusMessage::Other => {},
            }
            proof {
                assert(messages@.skip(i as int).skip(1) =~= messages@.skip(i as int + 1));
            }
        }
        if sink_at_end || !running {
            PollEnd::Ended
        } else {
            PollEnd::Timeout
        }
    }

    /// The reason why the stream ended, which is handed out once.
    pub fn take_stream_error(&mut self) -> (r: Option<String>)
        ensures
            text::optional(r) == old(self)@,
            final(self)@ is None,
    {
        self.stream_error.take()
    }
}

/// A user's socket lies in that user's runtime directory, so no two users share one.
pub proof fn sockets_belong_to_one_user(uid: u32, other: u32)
    ensures
        pipewire_socket(uid) == "/run/user/"@ + (text::decimal(uid as nat) + "/pipewire-0"@),
        pipewire_socket(uid) == pipewire_socket(other) ==> uid == other,
{
    let a = text::decimal(uid as nat);
    let b = text::decimal(other as nat);
    let front = "/run/user/"@;
    let back = "/pipewire-0"@;
    assert(pipewire_socket(uid) =~= front + (a + back));
    if pipewire_socket(uid) == pipewire_socket(other) {
        let s = pipewire_socket(uid);
        assert(s.subrange(front.len() as int, s.len() - back.len()) =~= a);
        assert(pipewire_socket(other).subrange(front.len() as int, s.len() - back.len()) =~= b);
        text::decimals_are_distinct(uid as nat, other as nat);
    }
}

/// An error says that a device is busy in whatever case it says so.
pub proof fn busy_is_read_in_any_case(detail: Seq<char>)
    ensures
        says_busy(detail) <==> text::mentions(text::lowered(detail), "busy"@),
        says_busy(detail) <==> says_busy(text::lowered(detail)),
{
    reveal_strlit("busy");
    reveal_strlit("ebusy");
    let low = text::lowered(detail);
    if text::mentions(low, "ebusy"@) {
        let i = choose|i: int| text::occurs_at(low, "ebusy"@, i);
        assert(low.subrange(i + 1, i + 5) =~= "busy"@) by {
            assert forall|k: int| 0 <= k < 4 implies low[i + 1 + k] == "busy"@[k] by {
                assert(low.subrange(i, i + 5)[k + 1] == low[i + 1 + k]);
            }
        }
        assert(text::occurs_at(low, "busy"@, i + 1));
    }
    assert(text::lowered(low) =~= low);
}

/// A field's value is what follows its name in the first field of that name.
pub proof fn the_first_field_of_a_name_counts(
    fields: Seq<Seq<char>>,
    prefix: Seq<char>,
    value: Seq<char>,
    rest: Seq<Seq<char>>,
)
    requires
        forall|i: int| 0 <= i < fields.len() ==> !text::starts(#[trigger] fields[i], prefix),
    ensures
        field_value(fields + seq![prefix + value] + rest, prefix) == Some(value),
        field_value(fields, prefix) is None,
    decreases fields.len(),
{
    let all = fields + seq![prefix + value] + rest;
    text::prefixes_come_off_again(value, prefix);
    text::a_mentioned_text_stands_somewhere(prefix + value, prefix);
    if fields.len() == 0 {
        assert(all[0] == prefix + value);
    } else {
        let fewer = fields.skip(1);
        assert forall|i: int| 0 <= i < fewer.len() implies !text::starts(
            #[trigger] fewer[i],
            prefix,
        ) by {
            assert(fewer[i] == fields[i + 1]);
        }
        the_first_field_of_a_name_counts(fewer, prefix, value, rest);
        assert(all[0] == fields[0]);
        assert(all.skip(1) =~= fewer + seq![prefix + value] + rest);
    }
}

/// Only a PipeWire element has anything to fall back to: the bare one to any device, and one with a
/// target to that target, without the quotation marks round it. A target is never replaced by any
/// device.
pub proof fn a_target_falls_back_to_itself_alone(element: Seq<char>, target: Seq<char>)
    requires
        target.len() > 0,
        text::free_of(target, CharClass::White),
        !text::in_class(target[0], CharClass::Quote),
        !text::in_class(target.last(), CharClass::Quote),
    ensures
        fallback_of("pipewiresrc"@) == Fallback::AnyDevice,
        fallback_of("pipewiresrc target-object="@ + target) == Fallback::SameNode(target),
        fallback_of("pipewiresrc target-object="@ + (seq!['"'] + target).push('"'))
            == Fallback::SameNode(target),
        fallback_of(element) is AnyDevice <==> element == "pipewiresrc"@,
        !camera::pipewire_element(element) ==> fallback_of(element) is Nothing,
{
    reveal_strlit("pipewiresrc");
    reveal_strlit("pipewiresrc ");
    reveal_strlit("target-object=");
    reveal_strlit("pipewiresrc target-object=");
    let nothing = Seq::<char>::empty();
    lemma_target_word(target);
    text::trimming_takes_off_both_ends_alone(nothing, target, nothing, CharClass::Quote);
    assert(nothing + target + nothing =~= target);
    let marked = (seq!['"'] + target).push('"');
    assert forall|i: int| 0 <= i < marked.len() implies !text::in_class(
        #[trigger] marked[i],
        CharClass::White,
    ) by {
        if 0 < i <= target.len() {
            assert(marked[i] == target[i - 1]);
        }
    }
    lemma_target_word(marked);
    assert(marked =~= seq!['"'] + target + seq!['"']);
    text::trimming_takes_off_both_ends_alone(seq!['"'], target, seq!['"'], CharClass::Quote);
}

proof fn lemma_target_word(value: Seq<char>)
    requires
        text::free_of(value, CharClass::White),
    ensures
        text::without_prefix("pipewiresrc target-object="@ + value, "pipewiresrc "@) == Some(
            "target-object="@ + value,
        ),
        field_value(
            text::words_of("target-object="@ + value, CharClass::White),
            "target-object="@,
        ) == Some(value),
        "pipewiresrc target-object="@ + value != "pipewiresrc"@,
{
    reveal_strlit("pipewiresrc");
    reveal_strlit("pipewiresrc ");
    reveal_strlit("target-object=");
    reveal_strlit("pipewiresrc target-object=");
    let field = "target-object="@ + value;
    assert("pipewiresrc target-object="@ + value =~= "pipewiresrc "@ + field);
    text::prefixes_come_off_again(field, "pipewiresrc "@);
    assert forall|i: int| 0 <= i < field.len() implies !text::in_class(
        #[trigger] field[i],
        CharClass::White,
    ) by {
        if i >= 14 {
            assert(field[i] == value[i - 14]);
        }
    }
    text::text_without_separators_is_one_word(field, CharClass::White);
    let none = Seq::<Seq<char>>::empty();
    the_first_field_of_a_name_counts(none, "target-object="@, value, none);
    assert(none + seq![field] + none =~= seq![field]);
}

/// Binding a descriptor keeps the element and puts one behind it, once: a bound element stays as it is,
/// and so does one that is not PipeWire's.
pub proof fn a_descriptor_is_bound_once(element: Seq<char>, fd: nat, other: int)
    ensures
        text::starts(bound_to_descriptor(element, other), element),
        !camera::pipewire_element(element) ==> bound_to_descriptor(element, other) == element,
        camera::pipewire_element(element) && !names_descriptor(element) ==> bound_to_descriptor(
            element,
            fd as int,
        ) == element + (" fd="@ + text::decimal(fd)) && names_descriptor(
            bound_to_descriptor(element, fd as int),
        ) && bound_to_descriptor(bound_to_descriptor(element, fd as int), other)
            == bound_to_descriptor(element, fd as int),
{
    let all = bound_to_descriptor(element, other);
    assert(all.take(element.len() as int) =~= element);
    if camera::pipewire_element(element) && !names_descriptor(element) {
        lemma_bound(element, fd);
    }
}

#[verifier::spinoff_prover]
#[verifier::rlimit(40)]
proof fn lemma_bound(element: Seq<char>, fd: nat)
    requires
        camera::pipewire_element(element),
        !names_descriptor(element),
    ensures
        bound_to_descriptor(element, fd as int) == element + (" fd="@ + text::decimal(fd)),
        names_descriptor(bound_to_descriptor(element, fd as int)),
{
    reveal_strlit(" fd=");
    reveal_strlit("fd=");
    let d = text::decimal(fd);
    text::digits_read_back(fd, 10);
    text::digits_hold_no_separator(d, 10);
    let bound = bound_to_descriptor(element, fd as int);
    let field = "fd="@ + d;
    assert(bound == element + " fd="@ + d);
    assert(" fd="@ =~= seq![' '] + "fd="@);
    assert(bound =~= element + (" fd="@ + d));
    assert(bound =~= element.push(' ') + field);
    text::words_end_at_every_separator(element, ' ', field, CharClass::White);
    assert forall|i: int| 0 <= i < field.len() implies !text::in_class(
        #[trigger] field[i],
        CharClass::White,
    ) by {
        if i >= 3 {
            assert(field[i] == d[i - 3]);
        }
    }
    text::text_without_separators_is_one_word(field, CharClass::White);
    let words = text::words_of(element, CharClass::White);
    lemma_no_field(words, "fd="@);
    let none = Seq::<Seq<char>>::empty();
    the_first_field_of_a_name_counts(words, "fd="@, d, none);
    assert(words + seq![field] + none =~= words + seq![field]);
}

proof fn lemma_no_field(fields: Seq<Seq<char>>, prefix: Seq<char>)
    requires
        field_value(fields, prefix) is None,
    ensures
        forall|i: int| 0 <= i < fields.len() ==> !text::starts(#[trigger] fields[i], prefix),
    decreases fields.len(),
{
    if fields.len() > 0 {
        let rest = fields.skip(1);
        assert(!text::starts(fields[0], prefix));
        lemma_no_field(rest, prefix);
        assert forall|i: int| 0 <= i < fields.len() implies !text::starts(
            #[trigger] fields[i],
            prefix,
        ) by {
            if i > 0 {
                assert(fields[i] == rest[i - 1]);
            }
        }
    }
}

/// Every pipeline begins with its element and ends in the sink that frames are taken from. Only a
/// forced one fixes the format and the size.
pub proof fn pipelines_lead_to_the_sink(element: Seq<char>, forced: bool)
    ensures
        text::starts(pipeline_of(element, forced), element),
        text::ends(pipeline_of(element, forced), "appsink name=gaze_sink"@),
        pipeline_of(element, true) != pipeline_of(element, false),
{
    reveal_strlit("appsink name=gaze_sink");
    reveal_strlit(
        " ! video/x-raw,format=YUY2,width=640,height=480,pixel-aspect-ratio=1/1 ! videoconvert ! videoscale ! appsink name=gaze_sink",
    );
    reveal_strlit(
        " ! video/x-raw,pixel-aspect-ratio=1/1; image/jpeg ! decodebin ! videoconvert ! videoscale ! appsink name=gaze_sink",
    );
    let s = pipeline_of(element, forced);
    assert(s.take(element.len() as int) =~= element);
    assert(s.skip(s.len() - 22) =~= "appsink name=gaze_sink"@);
    assert(pipeline_of(element, true).len() != pipeline_of(element, false).len());
}

/// A source is opened as what it stands for. A session is bound only to a PipeWire element, a mode is
/// forced only for infrared, and what cannot be opened is said.
pub proof fn a_source_is_opened_as_what_it_stands_for(
    source: Seq<char>,
    want_color: bool,
    scan: Scan,
    known: Seq<IrDevice>,
    uid: Option<u32>,
)
    ensures
        match camera::classified(source, want_color) {
            camera::Source::Refused(error) => planned(source, want_color, scan, known, uid) == Err::<
                Plan,
                Seq<char>,
            >(error),
            camera::Source::Element(element) => planned(
                source,
                want_color,
                scan,
                known,
                uid,
            ) matches Ok(plan) && plan.element == element && plan.fallback == fallback_of(element),
            camera::Source::Usb(vid, pid, color) => match nodes::usb_video_node(
                scan,
                vid,
                pid,
                color,
                known,
            ) {
                Some(node) => planned(source, want_color, scan, known, uid) matches Ok(plan)
                    && plan.element == "v4l2src device="@ + node && plan.session is None
                    && plan.fallback is Nothing && plan.forced == devices::forced_mode(
                    known,
                    vid,
                    pid,
                    color,
                ),
                None => planned(source, want_color, scan, known, uid) is Err,
            },
        },
        planned(source, want_color, scan, known, uid) matches Ok(plan) ==> {
            &&& plan.session == (if camera::pipewire_element(plan.element) {
                uid
            } else {
                None
            })
            &&& want_color ==> !plan.forced
        },
{
    reveal_strlit("v4l2src device=");
    reveal_strlit("pipewiresrc");
    reveal_strlit("pipewiresrc ");
    if let camera::Source::Usb(vid, pid, color) = camera::classified(source, want_color) {
        if let Some(node) = nodes::usb_video_node(scan, vid, pid, color, known) {
            let element = "v4l2src device="@ + node;
            assert(element[0] == 'v');
            assert(!camera::pipewire_element(element)) by {
                if text::starts(element, "pipewiresrc "@) {
                    assert(element.take(12)[0] == element[0]);
                }
            }
        }
    }
}

/// A camera that is reported with a video node, whose ids and spectrum are asked for, can be opened by
/// its ids, also without a PipeWire session.
pub proof fn a_reported_camera_can_be_opened_by_its_ids(
    vid: u16,
    pid: u16,
    width: nat,
    want_color: bool,
    scan: Scan,
    known: Seq<IrDevice>,
    uid: Option<u32>,
    k: int,
)
    requires
        scan.devices is Some,
        0 <= k < devices::devices_of(scan).len(),
        devices::capture_path(devices::devices_of(scan)[k]) is Some,
        devices::color_device(devices::devices_of(scan)[k]) == want_color,
        forall|j: int|
            0 <= j < k ==> devices::capture_path(#[trigger] devices::devices_of(scan)[j])
                != devices::capture_path(devices::devices_of(scan)[k]),
        devices::ids_of(scan.ids@, devices::capture_path(devices::devices_of(scan)[k])->0) == Some(
            (vid, pid),
        ),
    ensures
        planned(
            "usb:"@ + text::padded(vid as nat, 16, width).push(':') + text::padded(
                pid as nat,
                16,
                width,
            ),
            want_color,
            scan,
            known,
            uid,
        ) matches Ok(plan) && exists|node: Seq<char>|
            plan.element == #[trigger] ("v4l2src device="@ + node) && devices::ids_of(scan.ids@, node)
                == Some((vid, pid)),
{
    nodes::a_reported_camera_is_found_by_its_ids(scan, vid, pid, want_color, known, k);
    camera::a_source_stands_for_what_it_names(seq![], 0, vid, pid, width, want_color);
}

/// What is retried after a failure: nothing where nothing may be, the lowest node of the spectrum for
/// any device, and the target's own node for a target. The first error is never lost.
pub proof fn a_retry_opens_what_may_stand_in(
    target: Seq<char>,
    want_color: bool,
    scan: Scan,
    known: Seq<IrDevice>,
    error: Seq<char>,
    fallback: Fallback,
)
    ensures
        retried(Fallback::Nothing, want_color, scan, known, error) == Err::<
            (Seq<char>, bool),
            Seq<char>,
        >(error),
        nodes::first_node(scan, want_color) matches Some(node) ==> (retried(
            Fallback::AnyDevice,
            want_color,
            scan,
            known,
            error,
        ) matches Ok((element, _)) && element == "v4l2src device="@ + node),
        nodes::target_node(scan, target, want_color) matches Some(node) ==> (retried(
            Fallback::SameNode(target),
            want_color,
            scan,
            known,
            error,
        ) matches Ok((element, _)) && element == "v4l2src device="@ + node),
        retried(fallback, want_color, scan, known, error) matches Err(left) ==> text::ends(
            left,
            error,
        ),
        retried(fallback, want_color, scan, known, error) matches Ok((_, forced)) ==> (want_color
            ==> !forced),
{
    let prefix = "PipeWire camera failed and no V4L2 fallback device was found: "@;
    assert((prefix + error).skip(prefix.len() as int) =~= error);
    assert(error.skip(0) =~= error);
}

/// The bus is read to its first error or end: messages that are neither change nothing, and what
/// comes later does not count.
pub proof fn the_bus_is_read_to_its_first_word(
    idle: Seq<BusMessage>,
    error: String,
    debug: Option<String>,
    rest: Seq<BusMessage>,
)
    requires
        forall|i: int| 0 <= i < idle.len() ==> (#[trigger] idle[i]) is Other,
    ensures
        first_error(idle + seq![BusMessage::Error { error, debug }] + rest) == Some(
            error_detail(error, debug),
        ),
        bus_verdict(idle + seq![BusMessage::Error { error, debug }] + rest) == BusVerdict::Failed(
            error_detail(error, debug),
        ),
        bus_verdict(idle + seq![BusMessage::Eos] + rest) == BusVerdict::Ended,
        bus_verdict(idle) == BusVerdict::Silent,
        first_error(idle) is None,
        text::starts(error_detail(error, debug), error@),
    decreases idle.len(),
{
    let failed = idle + seq![BusMessage::Error { error, debug }] + rest;
    let ended = idle + seq![BusMessage::Eos] + rest;
    assert(error_detail(error, debug).take(error@.len() as int) =~= error@);
    if idle.len() > 0 {
        let fewer = idle.skip(1);
        assert forall|i: int| 0 <= i < fewer.len() implies (#[trigger] fewer[i]) is Other by {
            assert(fewer[i] == idle[i + 1]);
        }
        the_bus_is_read_to_its_first_word(fewer, error, debug, rest);
        assert(failed[0] == idle[0] && ended[0] == idle[0]);
        assert(failed.skip(1) =~= fewer + seq![BusMessage::Error { error, debug }] + rest);
        assert(ended.skip(1) =~= fewer + seq![BusMessage::Eos] + rest);
        assert(idle[0] is Other);
    } else {
        assert(failed[0] == (BusMessage::Error { error, debug }));
        assert(ended[0] == BusMessage::Eos);
    }
}

/// What is said of a failure holds its detail, and says that another program has the camera exactly
/// where the detail does.
pub proof fn failures_tell_a_busy_camera_apart(
    source: Seq<char>,
    error: Seq<char>,
    detail: Seq<char>,
)
    ensures
        text::ends(end_reason(detail), detail),
        text::starts(
            start_failure(source, error, Some(detail)),
            "The camera is already in use by another program ("@,
        ) <==> says_busy(detail),
        text::mentions(start_failure(source, error, Some(detail)), detail),
        text::mentions(start_failure(source, error, Some(detail)), source),
        !says_busy(detail) ==> end_reason(detail) == detail,
{
    reveal_strlit("The camera is already in use by another program (");
    reveal_strlit("Failed to start pipeline for ");
    let busy = "The camera is already in use by another program ("@;
    let reason = "The camera is already in use by another program: "@;
    assert((reason + detail).skip(reason.len() as int) =~= detail);
    assert(detail.skip(0) =~= detail);
    let s = start_failure(source, error, Some(detail));
    text::a_mentioned_text_stands_somewhere(s, detail);
    text::a_mentioned_text_stands_somewhere(s, source);
    let nothing = Seq::<char>::empty();
    if says_busy(detail) {
        assert(s.take(busy.len() as int) =~= busy);
        assert(s =~= (busy + source + "): "@) + detail + nothing);
        assert(s =~= busy + source + ("): "@ + detail));
    } else {
        let front = "Failed to start pipeline for "@;
        assert(s[0] == 'F');
        assert(!text::starts(s, busy)) by {
            if text::starts(s, busy) {
                assert(s.take(busy.len() as int)[0] == s[0]);
            }
        }
        assert(s =~= (front + source + ": "@ + error + " ("@) + detail + ")"@);
        assert(s =~= front + source + (": "@ + error + " ("@ + detail + ")"@));
    }
}

/// The waits of the camera are short: a tenth of a second to settle and to poll, half a second to
/// start.
pub proof fn camera_waits_are_short()
    ensures
        DEVICE_SETTLE_TIMEOUT_MS == 100,
        INTERRUPTIBLE_POLL_TIMEOUT_MS == 100,
        PIPELINE_START_TIMEOUT_MS == 500,
{
}

/// A plan for PipeWire belongs to a session, and any other to none.
pub proof fn only_pipewire_belongs_to_a_session(
    element: Seq<char>,
    forced: bool,
    uid: Option<u32>,
)
    ensures
        plan_of(element, forced, uid).element == element,
        plan_of(element, forced, uid).forced == forced,
        camera::pipewire_element(element) ==> plan_of(element, forced, uid).session == uid,
        !camera::pipewire_element(element) ==> plan_of(element, forced, uid).session is None,
        plan_of(element, forced, uid).fallback == fallback_of(element),
{
}

} // verus!
