//! Camera sources: how they are written, resolved and listed.

pub mod devices;
pub mod listing;
pub mod nodes;
pub mod opening;

use crate::camera::devices::Scan;
use crate::camera::nodes::{node_from_pipewire_target, resolve_usb_video_node};
use crate::config::{CameraConfig, DEFAULT_RGB_CAMERA};
use crate::led::IrDevice;
use crate::text;
use crate::text::CharClass;
use vstd::prelude::*;

verus! {

/// A camera by its spectrum: the source that selects it, and for infrared the node behind it, whose
/// emitter is switched.
#[derive(Debug, Clone, PartialEq, Eq)]
pub enum CameraKind {
    Rgb { source: String },
    Ir { source: String, node: String },
}

/// The vendor and product that `usb:VVVV:PPPP` names, in hexadecimal.
pub open spec fn usb_spec(source: Seq<char>) -> Option<(u16, u16)> {
    match text::without_prefix(text::trimmed(source, CharClass::White), "usb:"@) {
        None => None,
        Some(ids) => match text::split_first(ids, CharClass::Is(':')) {
            None => None,
            Some((vid, pid)) => match (
                text::parsed(text::trimmed(vid, CharClass::White), 16, 0xffff),
                text::parsed(text::trimmed(pid, CharClass::White), 16, 0xffff),
            ) {
                (Some(vid), Some(pid)) => Some((vid as u16, pid as u16)),
                _ => None,
            },
        },
    }
}

pub fn parse_usb_spec(source: &str) -> (r: Option<(u16, u16)>)
    ensures
        r == usb_spec(source@),
{
    let source_chars = text::chars(source);
    let source = text::trim(source_chars.as_slice(), CharClass::White);
    match text::strip_prefix(source, "usb:") {
        None => None,
        Some(ids) => match text::split_once(ids, CharClass::Is(':')) {
            None => None,
            Some((vid, pid)) => {
                let vid = text::parse_number(text::trim(vid, CharClass::White), 16, 0xffff);
                let pid = text::parse_number(text::trim(pid, CharClass::White), 16, 0xffff);
                match (vid, pid) {
                    (Some(vid), Some(pid)) => Some((vid as u16, pid as u16)),
                    _ => None,
                }
            },
        },
    }
}

/// A GStreamer source element, or a USB camera whose node is looked up when it is opened.
#[derive(Debug, PartialEq, Eq)]
pub enum SourceElement {
    Element(String),
    ResolveUsb { vid: u16, pid: u16, want_color: bool },
}

pub enum Source {
    Element(Seq<char>),
    Usb(u16, u16, bool),
    Refused(Seq<char>),
}

pub open spec fn source_view(source: Result<SourceElement, String>) -> Source {
    match source {
        Ok(SourceElement::Element(element)) => Source::Element(element@),
        Ok(SourceElement::ResolveUsb { vid, pid, want_color }) => Source::Usb(vid, pid, want_color),
        Err(error) => Source::Refused(error@),
    }
}

/// What a configured source stands for. The default source needs a PipeWire session; nodes and USB
/// ids go through V4L2, which also works in greeters that have none.
pub open spec fn classified(source: Seq<char>, want_color: bool) -> Source {
    let source = text::trimmed(source, CharClass::White);
    if source.len() == 0 {
        Source::Refused(
            "camera source cannot be empty; use \"primary\", \"/dev/video<n>\", \"usb:VVVV:PPPP\", or a GStreamer source"@,
        )
    } else if source == DEFAULT_RGB_CAMERA@ {
        Source::Element("pipewiresrc"@)
    } else if usb_spec(source) is Some {
        Source::Usb((usb_spec(source)->0).0, (usb_spec(source)->0).1, want_color)
    } else if text::starts(source, "usb:"@) {
        Source::Refused(
            "invalid USB camera spec "@ + text::quoted(source)
                + "; expected usb:VVVV:PPPP (hex VID:PID)"@,
        )
    } else {
        match text::without_prefix(source, "/dev/video"@) {
            Some(index) => if index.len() > 0 && text::all_digits(index) {
                Source::Element("v4l2src device="@ + source)
            } else {
                Source::Refused(
                    "invalid V4L2 camera node "@ + text::quoted(source)
                        + "; expected /dev/video<number>"@,
                )
            },
            None => Source::Element(source),
        }
    }
}

pub fn classify_source(source: &str, want_color: bool) -> (r: Result<SourceElement, String>)
    ensures
        source_view(r) == classified(source@, want_color),
{
    let source_chars = text::chars(source);
    let source_slice = text::trim(source_chars.as_slice(), CharClass::White);
    if source_slice.len() == 0 {
        return Err(
            "camera source cannot be empty; use \"primary\", \"/dev/video<n>\", \"usb:VVVV:PPPP\", or a GStreamer source".to_owned(),
        );
    }
    if text::is_text(source_slice, DEFAULT_RGB_CAMERA) {
        return Ok(SourceElement::Element("pipewiresrc".to_owned()));
    }
    let source = text::string(source_slice);
    if let Some((vid, pid)) = parse_usb_spec(source.as_str()) {
        return Ok(SourceElement::ResolveUsb { vid, pid, want_color });
    }
    if text::starts_with_str(source_slice, "usb:") {
        let shown = text::quote(source.as_str());
        return Err(
            text::cat3(
                "invalid USB camera spec ",
                shown.as_str(),
                "; expected usb:VVVV:PPPP (hex VID:PID)",
            ),
        );
    }
    match text::strip_prefix(source_slice, "/dev/video") {
        Some(index) => {
            if index.len() > 0 && text::only_digits(index) {
                Ok(SourceElement::Element(text::cat2("v4l2src device=", source.as_str())))
            } else {
                let shown = text::quote(source.as_str());
                Err(
                    text::cat3(
                        "invalid V4L2 camera node ",
                        shown.as_str(),
                        "; expected /dev/video<number>",
                    ),
                )
            }
        },
        None => Ok(SourceElement::Element(source)),
    }
}

/// The element is PipeWire's, with or without properties.
pub open spec fn pipewire_element(element: Seq<char>) -> bool {
    element == "pipewiresrc"@ || text::starts(element, "pipewiresrc "@)
}

pub fn is_pipewire_element(element: &str) -> (r: bool)
    ensures
        r == pipewire_element(element@),
{
    let element = text::chars(element);
    text::is_text(element.as_slice(), "pipewiresrc") || text::starts_with_str(
        element.as_slice(),
        "pipewiresrc ",
    )
}

pub open spec fn pipewire_source(source: Seq<char>) -> bool {
    match classified(source, true) {
        Source::Element(element) => pipewire_element(element),
        _ => false,
    }
}

pub fn is_pipewire_source(source: &str) -> (r: bool)
    ensures
        r == pipewire_source(source@),
{
    match classify_source(source, true) {
        Ok(SourceElement::Element(element)) => is_pipewire_element(element.as_str()),
        _ => false,
    }
}

/// The node of the first device that PipeWire knows by the target.
pub open spec fn reported_node(
    found: Seq<devices::VideoDevice>,
    target: Seq<char>,
) -> Option<Seq<char>>
    decreases found.len(),
{
    if found.len() == 0 {
        None
    } else if found[0].properties is Some && devices::target_of(found[0].properties->0) == Some(
        target,
    ) && devices::shown_path(found[0].properties->0) is Some {
        devices::shown_path(found[0].properties->0)
    } else {
        reported_node(found.skip(1), target)
    }
}

fn find_reported_node(found: &Vec<devices::VideoDevice>, target: &[char]) -> (r: Option<String>)
    ensures
        text::optional(r) == reported_node(found@, target@),
{
    proof {
        assert(found@.skip(0) =~= found@);
    }
    for i in 0..found.len()
        invariant
            reported_node(found@, target@) == reported_node(found@.skip(i as int), target@),
    {
        if let Some(properties) = &found[i].properties {
            if let Some(name) = devices::pipewire_target(properties) {
                if text::is_text(target, name.as_str()) {
                    if let Some(path) = devices::v4l2_node_of(properties) {
                        return Some(path);
                    }
                }
            }
        }
        proof {
            assert(found@.skip(i as int).skip(1) =~= found@.skip(i as int + 1));
        }
    }
    None
}

/// The node that a configured source is captured from. The spectrum decides only for USB ids, where
/// one device can have a node for each, and between the nodes of one PipeWire target.
pub open spec fn resolved_node(
    source: Seq<char>,
    want_color: bool,
    scan: Scan,
    known: Seq<IrDevice>,
) -> Option<Seq<char>> {
    let source = text::trimmed(source, CharClass::White);
    if source.len() == 0 {
        None
    } else if usb_spec(source) is Some {
        nodes::usb_video_node(
            scan,
            (usb_spec(source)->0).0,
            (usb_spec(source)->0).1,
            want_color,
            known,
        )
    } else {
        match text::after_first(source, "/dev/video"@) {
            Some(tail) => Some("/dev/video"@ + text::before(tail, CharClass::NonDigit)),
            None => match text::without_prefix(source, "pipewiresrc target-object="@) {
                None => None,
                Some(target) => {
                    let target = text::trimmed(
                        text::trimmed(target, CharClass::White),
                        CharClass::Quote,
                    );
                    match scan.devices {
                        None => None,
                        Some(found) => match reported_node(found@, target) {
                            Some(node) => Some(node),
                            None => nodes::target_node(scan, target, want_color),
                        },
                    }
                },
            },
        }
    }
}

pub fn resolve_node_for(
    source: &str,
    want_color: bool,
    scan: &Scan,
    known: &Vec<IrDevice>,
) -> (r: Option<String>)
    ensures
        text::optional(r) == resolved_node(source@, want_color, *scan, known@),
{
    let source_chars = text::chars(source);
    let source_slice = text::trim(source_chars.as_slice(), CharClass::White);
    if source_slice.len() == 0 {
        return None;
    }
    let source = text::string(source_slice);
    if let Some((vid, pid)) = parse_usb_spec(source.as_str()) {
        return resolve_usb_video_node(scan, vid, pid, want_color, known);
    }
    if let Some(tail) = text::cut_after(source_slice, "/dev/video") {
        let number = text::string(text::cut_before(tail, CharClass::NonDigit));
        return Some(text::cat2("/dev/video", number.as_str()));
    }
    match text::strip_prefix(source_slice, "pipewiresrc target-object=") {
        None => None,
        Some(target) => {
            let target = text::trim(text::trim(target, CharClass::White), CharClass::Quote);
            match &scan.devices {
                None => None,
                Some(found) => match find_reported_node(found, target) {
                    Some(node) => Some(node),
                    None => {
                        let target = text::string(target);
                        node_from_pipewire_target(scan, target.as_str(), want_color)
                    },
                },
            }
        },
    }
}

pub fn resolve_node(source: &str, scan: &Scan, known: &Vec<IrDevice>) -> (r: Option<String>)
    ensures
        text::optional(r) == resolved_node(source@, false, *scan, known@),
{
    resolve_node_for(source, false, scan, known)
}

/// A source that is set, without the white space round it.
pub open spec fn set_source(value: Seq<char>) -> Option<Seq<char>> {
    let value = text::trimmed(value, CharClass::White);
    if value.len() == 0 {
        None
    } else {
        Some(value)
    }
}

fn trimmed_source(value: &str) -> (r: Option<String>)
    ensures
        text::optional(r) == set_source(value@),
{
    let value = text::chars(value);
    let value = text::trim(value.as_slice(), CharClass::White);
    if value.len() == 0 {
        None
    } else {
        Some(text::string(value))
    }
}

pub fn resolve_rgb_source(cameras: &CameraConfig) -> (r: Option<String>)
    ensures
        text::optional(r) == set_source(cameras.rgb@),
{
    trimmed_source(cameras.rgb.as_str())
}

pub open spec fn given_or_empty(s: Option<Seq<char>>) -> Seq<char> {
    match s {
        Some(s) => s,
        None => seq![],
    }
}

fn or_empty(s: Option<String>) -> (r: String)
    ensures
        r@ == given_or_empty(text::optional(s)),
{
    match s {
        Some(s) => s,
        None => String::new(),
    }
}

/// The infrared source and the node that it is captured from, which is empty where none is found.
pub fn resolve_ir_source(cameras: &CameraConfig, scan: &Scan, known: &Vec<IrDevice>) -> (r: Option<
    (String, String),
>)
    ensures
        match r {
            Some((source, node)) => set_source(cameras.ir@) == Some(source@) && node@
                == given_or_empty(resolved_node(source@, false, *scan, known@)),
            None => set_source(cameras.ir@) is None,
        },
{
    match trimmed_source(cameras.ir.as_str()) {
        None => None,
        Some(ir) => {
            let node = or_empty(resolve_node(ir.as_str(), scan, known));
            Some((ir, node))
        },
    }
}

/// Whether the two spectra have to be captured one after the other. Only two distinct nodes are known
/// to stream at the same time; a source without a node might be the very device that the other one
/// opens.
pub fn capture_must_serialize(rgb_node: Option<&str>, ir_node: Option<&str>) -> (r: bool)
    ensures
        r == !(rgb_node is Some && ir_node is Some && (rgb_node->0)@ != (ir_node->0)@),
{
    match (rgb_node, ir_node) {
        (Some(rgb), Some(ir)) => text::str_eq(rgb, ir),
        _ => true,
    }
}

pub struct ConfiguredCameraSources {
    pub rgb: String,
    pub ir: String,
    pub ir_node: String,
    /// Whether RGB and IR have to be captured one spectrum at a time.
    pub serial_capture: bool,
}

pub fn resolve_configured_sources(
    cameras: &CameraConfig,
    scan: &Scan,
    known: &Vec<IrDevice>,
) -> (r: ConfiguredCameraSources)
    ensures
        r.rgb@ == given_or_empty(set_source(cameras.rgb@)),
        r.ir@ == given_or_empty(set_source(cameras.ir@)),
        r.ir_node@ == given_or_empty(resolved_node(r.ir@, false, *scan, known@)),
        r.serial_capture == !(resolved_node(r.rgb@, true, *scan, known@) is Some
            && r.ir_node@.len() > 0 && resolved_node(r.rgb@, true, *scan, known@)->0 != r.ir_node@),
{
    let rgb = or_empty(resolve_rgb_source(cameras));
    let (ir, ir_node) = match resolve_ir_source(cameras, scan, known) {
        Some(found) => found,
        None => (String::new(), String::new()),
    };
    proof {
        if ir@.len() == 0 {
            assert(text::trimmed(ir@, CharClass::White).len() == 0) by {
                assert(text::trimmed_front(ir@, CharClass::White) =~= ir@);
                assert(text::trimmed_back(ir@, CharClass::White) =~= ir@);
            }
        }
    }
    let rgb_node = resolve_node_for(rgb.as_str(), true, scan, known);
    let rgb_named: Option<&str> = match &rgb_node {
        Some(node) => Some(node.as_str()),
        None => None,
    };
    let ir_named: Option<&str> = if text::chars(ir_node.as_str()).len() == 0 {
        None
    } else {
        Some(ir_node.as_str())
    };
    let serial_capture = capture_must_serialize(rgb_named, ir_named);
    ConfiguredCameraSources { rgb, ir, ir_node, serial_capture }
}

pub open spec fn preferred(cameras: CameraConfig) -> (Seq<char>, bool) {
    match set_source(cameras.rgb@) {
        Some(rgb) => (rgb, false),
        None => match set_source(cameras.ir@) {
            Some(ir) => (ir, true),
            None => (DEFAULT_RGB_CAMERA@, false),
        },
    }
}

/// The source to capture from, and whether it is the infrared one.
pub fn preferred_capture_source(cameras: &CameraConfig) -> (r: (String, bool))
    ensures
        (r.0@, r.1) == preferred(*cameras),
{
    if let Some(rgb) = resolve_rgb_source(cameras) {
        (rgb, false)
    } else if let Some(ir) = trimmed_source(cameras.ir.as_str()) {
        (ir, true)
    } else {
        (DEFAULT_RGB_CAMERA.to_owned(), false)
    }
}

/// Whether two previews can run at once: only PipeWire shares a camera, and a setup with both spectra
/// has to release the one before it opens the other.
pub fn preview_can_be_shared(cameras: &CameraConfig) -> (r: bool)
    ensures
        r == (set_source(cameras.ir@) is None && pipewire_source(preferred(*cameras).0)),
{
    if trimmed_source(cameras.ir.as_str()).is_some() {
        return false;
    }
    let (source, _) = preferred_capture_source(cameras);
    is_pipewire_source(source.as_str())
}

/// USB ids are read from four hexadecimal digits each, or from however many write them, with white
/// space around the source and around each of the two; every other source has none.
pub proof fn usb_ids_are_read_from_their_digits(
    front: Seq<char>,
    vid: u16,
    pid: u16,
    width: nat,
    back: Seq<char>,
    other: Seq<char>,
)
    requires
        text::all_of(front, CharClass::White),
        text::all_of(back, CharClass::White),
    ensures
        usb_spec(
            front + ("usb:"@ + text::padded(vid as nat, 16, width).push(':') + text::padded(
                pid as nat,
                16,
                width,
            )) + back,
        ) == Some((vid, pid)),
        !text::starts(text::trimmed(other, CharClass::White), "usb:"@) ==> usb_spec(other) is None,
{
    let v = text::padded(vid as nat, 16, width);
    let p = text::padded(pid as nat, 16, width);
    text::zeros_in_front_do_not_count(vid as nat, 16, width, 0xffff);
    text::zeros_in_front_do_not_count(pid as nat, 16, width, 0xffff);
    text::digits_hold_no_separator(v, 16);
    text::digits_hold_no_separator(p, 16);
    let ids = v.push(':') + p;
    let source = "usb:"@ + v.push(':') + p;
    assert(source =~= "usb:"@ + ids);
    reveal_strlit("usb:");
    assert(source[0] == 'u');
    assert(source.last() == p[p.len() - 1]);
    assert(!text::in_class(p[p.len() - 1], CharClass::White));
    text::trimming_takes_off_both_ends_alone(front, source, back, CharClass::White);
    text::prefixes_come_off_again(ids, "usb:"@);
    text::text_is_cut_at_the_first_of_a_class(v, ':', p, CharClass::Is(':'));
}

/// White space around a source does not matter: the source means what it means without it.
pub proof fn space_around_a_source_does_not_matter(
    front: Seq<char>,
    source: Seq<char>,
    back: Seq<char>,
    want_color: bool,
    scan: Scan,
    known: Seq<IrDevice>,
)
    requires
        text::all_of(front, CharClass::White),
        text::all_of(back, CharClass::White),
        source.len() > 0,
        !text::in_class(source[0], CharClass::White),
        !text::in_class(source.last(), CharClass::White),
    ensures
        classified(front + source + back, want_color) == classified(source, want_color),
        resolved_node(front + source + back, want_color, scan, known) == resolved_node(
            source,
            want_color,
            scan,
            known,
        ),
        set_source(front + source + back) == Some(source),
{
    let nothing = Seq::<char>::empty();
    text::trimming_takes_off_both_ends_alone(front, source, back, CharClass::White);
    text::trimming_takes_off_both_ends_alone(nothing, source, nothing, CharClass::White);
    assert(nothing + source + nothing =~= source);
}

/// A source of nothing but white space is not set, is refused, and has no node.
pub proof fn a_blank_source_is_none(
    blank: Seq<char>,
    want_color: bool,
    scan: Scan,
    known: Seq<IrDevice>,
)
    requires
        text::all_of(blank, CharClass::White),
    ensures
        set_source(blank) is None,
        classified(blank, want_color) is Refused,
        resolved_node(blank, want_color, scan, known) is None,
{
    let nothing = Seq::<char>::empty();
    text::trimming_takes_off_both_ends_alone(blank, nothing, nothing, CharClass::White);
    assert(blank + nothing + nothing =~= blank);
}

/// A text that can stand as a source: something, with no white space at its ends.
pub open spec fn tidy(source: Seq<char>) -> bool {
    &&& source.len() > 0
    &&& !text::in_class(source[0], CharClass::White)
    &&& !text::in_class(source.last(), CharClass::White)
}

proof fn lemma_tidy(source: Seq<char>)
    requires
        tidy(source),
    ensures
        text::trimmed(source, CharClass::White) == source,
{
    let nothing = Seq::<char>::empty();
    text::trimming_takes_off_both_ends_alone(nothing, source, nothing, CharClass::White);
    assert(nothing + source + nothing =~= source);
}

/// What a source stands for: the default is any camera that PipeWire has; a numbered node is opened as
/// it is; USB ids are looked up for the wanted spectrum; an ill-written node or id is refused; and
/// anything else is a source of its own.
pub proof fn a_source_stands_for_what_it_names(
    source: Seq<char>,
    n: nat,
    vid: u16,
    pid: u16,
    width: nat,
    want_color: bool,
)
    ensures
        classified("primary"@, want_color) == Source::Element("pipewiresrc"@),
        classified("/dev/video"@ + text::decimal(n), want_color) == Source::Element(
            "v4l2src device="@ + ("/dev/video"@ + text::decimal(n)),
        ),
        classified(
            "usb:"@ + text::padded(vid as nat, 16, width).push(':') + text::padded(
                pid as nat,
                16,
                width,
            ),
            want_color,
        ) == Source::Usb(vid, pid, want_color),
        tidy(source) && text::starts(source, "usb:"@) && usb_spec(source) is None ==> classified(
            source,
            want_color,
        ) is Refused,
        tidy(source) && text::starts(source, "/dev/video"@) && !text::all_digits(source.skip(10))
            ==> classified(source, want_color) is Refused,
        tidy(source) && source != "primary"@ && !text::starts(source, "usb:"@) && !text::starts(
            source,
            "/dev/video"@,
        ) ==> classified(source, want_color) == Source::Element(source),
{
    reveal_strlit("primary");
    reveal_strlit("usb:");
    reveal_strlit("/dev/video");
    let nothing = Seq::<char>::empty();
    assert(tidy("primary"@));
    lemma_tidy("primary"@);
    // A numbered node.
    let d = text::decimal(n);
    text::digits_read_back(n, 10);
    text::digits_hold_no_separator(d, 10);
    let node = "/dev/video"@ + d;
    assert(node[0] == '/');
    assert(node.last() == d[d.len() - 1]);
    assert(tidy(node));
    lemma_tidy(node);
    text::prefixes_come_off_again(d, "/dev/video"@);
    assert(node != "primary"@) by {
        assert("primary"@[0] == 'p');
    }
    assert(!text::starts(node, "usb:"@)) by {
        if text::starts(node, "usb:"@) {
            assert(node.take(4)[0] == "usb:"@[0]);
        }
    }
    usb_ids_are_read_from_their_digits(nothing, vid, pid, width, nothing, node);
    assert(text::all_digits(d)) by {
        assert forall|i: int| 0 <= i < d.len() implies text::digit(#[trigger] d[i]) by {
            assert(text::digit_value(d[i]) is Some);
        }
    }
    // USB ids.
    let usb = "usb:"@ + text::padded(vid as nat, 16, width).push(':') + text::padded(
        pid as nat,
        16,
        width,
    );
    assert(nothing + usb + nothing =~= usb);
    text::zeros_in_front_do_not_count(pid as nat, 16, width, 0xffff);
    let p = text::padded(pid as nat, 16, width);
    text::digits_hold_no_separator(p, 16);
    assert(usb[0] == 'u');
    assert(usb.last() == p[p.len() - 1]);
    assert(!text::in_class(p[p.len() - 1], CharClass::White));
    assert(tidy(usb));
    lemma_tidy(usb);
    assert(usb != "primary"@) by {
        assert("primary"@[0] == 'p');
    }
    // Anything else.
    if tidy(source) {
        lemma_tidy(source);
        usb_ids_are_read_from_their_digits(nothing, vid, pid, width, nothing, source);
        if text::starts(source, "usb:"@) {
            assert(source.take(4)[0] == source[0]);
            assert(source != "primary"@) by {
                assert("primary"@[0] == 'p');
            }
        }
        if text::starts(source, "/dev/video"@) {
            assert(source.take(10)[0] == source[0]);
            assert(source != "primary"@) by {
                assert("primary"@[0] == 'p');
            }
            assert(!text::starts(source, "usb:"@)) by {
                if text::starts(source, "usb:"@) {
                    assert(source.take(4)[0] == source[0]);
                }
            }
        }
    }
}

/// An element is PipeWire's exactly when its first word is, and a source is when it stands for one.
pub proof fn pipewire_is_the_first_word(properties: Seq<char>, element: Seq<char>)
    ensures
        pipewire_element("pipewiresrc"@),
        pipewire_element("pipewiresrc "@ + properties),
        pipewire_element(element) ==> element == "pipewiresrc"@ || exists|rest: Seq<char>|
            element == #[trigger] ("pipewiresrc "@ + rest),
        pipewire_source("primary"@),
{
    text::a_mentioned_text_stands_somewhere("pipewiresrc "@ + properties, "pipewiresrc "@);
    text::a_mentioned_text_stands_somewhere(element, "pipewiresrc "@);
    a_source_stands_for_what_it_names(seq![], 0, 0, 0, 0, true);
}

/// The node of a target is that of the first reported device that goes by it and shows one.
pub proof fn a_target_is_the_first_device_that_goes_by_it(
    found: Seq<devices::VideoDevice>,
    target: Seq<char>,
)
    ensures
        match reported_node(found, target) {
            Some(node) => exists|i: int|
                {
                    &&& 0 <= i < found.len()
                    &&& goes_by(#[trigger] found[i], target)
                    &&& devices::shown_path(found[i].properties->0) == Some(node)
                    &&& forall|j: int| 0 <= j < i ==> !goes_by(#[trigger] found[j], target)
                },
            None => forall|i: int| 0 <= i < found.len() ==> !goes_by(#[trigger] found[i], target),
        },
    decreases found.len(),
{
    if found.len() > 0 && !goes_by(found[0], target) {
        let rest = found.skip(1);
        a_target_is_the_first_device_that_goes_by_it(rest, target);
        match reported_node(found, target) {
            Some(node) => {
                let i = choose|i: int|
                    {
                        &&& 0 <= i < rest.len()
                        &&& goes_by(#[trigger] rest[i], target)
                        &&& devices::shown_path(rest[i].properties->0) == Some(node)
                        &&& forall|j: int| 0 <= j < i ==> !goes_by(#[trigger] rest[j], target)
                    };
                assert(found[i + 1] == rest[i]);
                assert forall|j: int| 0 <= j < i + 1 implies !goes_by(#[trigger] found[j], target) by {
                    if j > 0 {
                        assert(found[j] == rest[j - 1]);
                    }
                }
            },
            None => {
                assert forall|i: int| 0 <= i < found.len() implies !goes_by(
                    #[trigger] found[i],
                    target,
                ) by {
                    if i > 0 {
                        assert(found[i] == rest[i - 1]);
                    }
                }
            },
        }
    } else if found.len() > 0 {
        assert(goes_by(found[0], target));
    }
}

/// PipeWire is asked for the device by the target, and the device shows a node.
pub open spec fn goes_by(device: devices::VideoDevice, target: Seq<char>) -> bool {
    device.properties matches Some(p) && devices::target_of(p) == Some(target)
        && devices::shown_path(p) is Some
}

/// A node that a source names is the node that it is captured from, whatever the machine reports, and
/// so is one inside a longer source. USB ids and the default are never mistaken for a node.
pub proof fn a_named_node_is_captured_from(
    before: Seq<char>,
    n: nat,
    after: Seq<char>,
    want_color: bool,
    scan: Scan,
    known: Seq<IrDevice>,
)
    requires
        tidy(before + ("/dev/video"@ + text::decimal(n)) + after),
        !text::starts(before + ("/dev/video"@ + text::decimal(n)) + after, "usb:"@),
        forall|j: int|
            j < before.len() ==> !text::occurs_at(
                before + ("/dev/video"@ + text::decimal(n)) + after,
                "/dev/video"@,
                j,
            ),
        after.len() == 0 || !text::digit(after[0]),
    ensures
        resolved_node(
            before + ("/dev/video"@ + text::decimal(n)) + after,
            want_color,
            scan,
            known,
        ) == Some("/dev/video"@ + text::decimal(n)),
{
    reveal_strlit("/dev/video");
    let d = text::decimal(n);
    let source = before + ("/dev/video"@ + d) + after;
    text::digits_read_back(n, 10);
    lemma_tidy(source);
    usb_ids_are_read_from_their_digits(Seq::empty(), 0, 0, 0, Seq::empty(), source);
    text::the_rest_follows_the_first_occurrence(source, "/dev/video"@);
    let at = before.len() as int;
    assert(source.subrange(at, at + 10) =~= "/dev/video"@);
    assert(text::occurs_at(source, "/dev/video"@, at));
    let rest = text::after_first(source, "/dev/video"@)->0;
    let found = source.len() - rest.len() - 10;
    assert(found == at) by {
        if found < at {
            assert(!text::occurs_at(source, "/dev/video"@, found));
        }
    }
    assert(rest =~= d + after);
    assert forall|i: int| 0 <= i < d.len() implies !text::in_class(
        #[trigger] d[i],
        CharClass::NonDigit,
    ) by {
        assert(text::digit_value(d[i]) is Some);
    }
    if after.len() > 0 {
        text::text_is_cut_at_the_first_of_a_class(
            d,
            after[0],
            after.skip(1),
            CharClass::NonDigit,
        );
        assert(d.push(after[0]) + after.skip(1) =~= d + after);
    } else {
        text::text_is_cut_at_the_first_of_a_class(d, 'x', Seq::empty(), CharClass::NonDigit);
        assert(d + after =~= d);
    }
}

/// USB ids are captured from the node that is found for them, of the wanted spectrum.
pub proof fn usb_ids_are_captured_from_their_node(
    vid: u16,
    pid: u16,
    width: nat,
    want_color: bool,
    scan: Scan,
    known: Seq<IrDevice>,
)
    ensures
        resolved_node(
            "usb:"@ + text::padded(vid as nat, 16, width).push(':') + text::padded(
                pid as nat,
                16,
                width,
            ),
            want_color,
            scan,
            known,
        ) == nodes::usb_video_node(scan, vid, pid, want_color, known),
{
    let nothing = Seq::<char>::empty();
    let usb = "usb:"@ + text::padded(vid as nat, 16, width).push(':') + text::padded(
        pid as nat,
        16,
        width,
    );
    assert(nothing + usb + nothing =~= usb);
    usb_ids_are_read_from_their_digits(nothing, vid, pid, width, nothing, nothing);
    text::zeros_in_front_do_not_count(pid as nat, 16, width, 0xffff);
    let p = text::padded(pid as nat, 16, width);
    text::digits_hold_no_separator(p, 16);
    reveal_strlit("usb:");
    assert(usb[0] == 'u');
    assert(usb.last() == p[p.len() - 1]);
    assert(!text::in_class(p[p.len() - 1], CharClass::White));
    lemma_tidy(usb);
}

/// A pinned PipeWire target, with or without quotation marks, is captured from the node that its device
/// reports, and otherwise from the one that is linked for it. Where nothing is reported there is none.
pub proof fn a_pinned_target_is_captured_from_its_own_node(
    target: Seq<char>,
    want_color: bool,
    scan: Scan,
    known: Seq<IrDevice>,
)
    requires
        tidy(target),
        !text::in_class(target[0], CharClass::Quote),
        !text::in_class(target.last(), CharClass::Quote),
        !text::mentions("pipewiresrc target-object="@ + target, "/dev/video"@),
    ensures
        ({
            let node = resolved_node(
                "pipewiresrc target-object="@ + target,
                want_color,
                scan,
                known,
            );
            &&& scan.devices is None ==> node is None
            &&& scan.devices is Some ==> node == (match reported_node(
                devices::devices_of(scan),
                target,
            ) {
                Some(reported) => Some(reported),
                None => nodes::target_node(scan, target, want_color),
            })
        }),
{
    reveal_strlit("pipewiresrc target-object=");
    reveal_strlit("usb:");
    let nothing = Seq::<char>::empty();
    let source = "pipewiresrc target-object="@ + target;
    assert(source[0] == 'p');
    assert(source.last() == target.last());
    lemma_tidy(source);
    lemma_tidy(target);
    assert(!text::starts(source, "usb:"@)) by {
        if text::starts(source, "usb:"@) {
            assert(source.take(4)[0] == source[0]);
        }
    }
    usb_ids_are_read_from_their_digits(nothing, 0, 0, 0, nothing, source);
    text::the_rest_follows_the_first_occurrence(source, "/dev/video"@);
    text::prefixes_come_off_again(target, "pipewiresrc target-object="@);
    text::trimming_takes_off_both_ends_alone(nothing, target, nothing, CharClass::Quote);
    assert(nothing + target + nothing =~= target);
}

/// The colour source is preferred, the infrared one stands in where none is set, and the default where
/// neither is; what is preferred is infrared only in that one case.
pub proof fn the_colour_source_is_preferred(cameras: CameraConfig)
    ensures
        set_source(cameras.rgb@) matches Some(rgb) ==> preferred(cameras) == (rgb, false),
        set_source(cameras.rgb@) is None && set_source(cameras.ir@) is Some ==> preferred(cameras)
            == (set_source(cameras.ir@)->0, true),
        set_source(cameras.rgb@) is None && set_source(cameras.ir@) is None ==> preferred(cameras)
            == ("primary"@, false),
{
}

} // verus!
