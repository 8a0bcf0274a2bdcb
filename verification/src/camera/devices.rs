//! The video devices of a machine: their nodes, their spectrum, and which of them to capture from.

use crate::led::IrDevice;
use crate::text::CharClass;
use crate::{led, text};
use vstd::prelude::*;

verus! {

/// One structure of a device's capabilities.
pub struct CapsStructure {
    pub name: String,
    pub format: Option<String>,
    pub drm_format: Option<String>,
}

/// What a device says of itself. A property that is a number is held as it is shown.
pub struct DeviceProperties {
    /// Whether they are PipeWire's.
    pub pipewire: bool,
    pub node_name: Option<String>,
    pub object_serial: Option<String>,
    pub object_id: Option<String>,
    pub object_path: Option<String>,
    pub v4l2_path: Option<String>,
    pub device_path: Option<String>,
}

/// A device that the monitor reported.
pub struct VideoDevice {
    pub display_name: String,
    pub properties: Option<DeviceProperties>,
    pub caps: Option<Vec<CapsStructure>>,
}

/// A link that udev keeps for a node.
pub struct NodeLink {
    pub name: String,
    pub node: String,
}

/// The USB ids of a node.
pub struct NodeIds {
    pub node: String,
    pub vid: u16,
    pub pid: u16,
}

/// What a machine's video devices are at one time.
pub struct Scan {
    /// What the monitor reported, or `None` where it could not be started.
    pub devices: Option<Vec<VideoDevice>>,
    /// What is linked by path.
    pub links: Vec<NodeLink>,
    pub ids: Vec<NodeIds>,
}

pub open spec fn devices_of(scan: Scan) -> Seq<VideoDevice> {
    match scan.devices {
        Some(devices) => devices@,
        None => seq![],
    }
}

pub open spec fn mono_format(format: Seq<char>) -> bool {
    let format = text::uppered(text::trimmed(format, CharClass::White));
    ||| text::starts(format, "GRAY"@)
    ||| text::starts(format, "GREY"@)
    ||| format == "R8"@
    ||| format == "R16"@
    ||| format == "Y8"@
    ||| format == "Y16"@
}

pub fn is_mono_format(format: &str) -> (r: bool)
    ensures
        r == mono_format(format@),
{
    let format = text::chars(format);
    let format = text::upper(text::trim(format.as_slice(), CharClass::White));
    let format = format.as_slice();
    text::starts_with_str(format, "GRAY") || text::starts_with_str(format, "GREY")
        || text::is_text(format, "R8") || text::is_text(format, "R16") || text::is_text(
        format,
        "Y8",
    ) || text::is_text(format, "Y16")
}

/// The pixel format of a structure: for a DRM buffer the one inside, where it is said.
pub open spec fn pixel_format(structure: CapsStructure) -> Option<Seq<char>> {
    match structure.format {
        None => None,
        Some(format) => match structure.drm_format {
            Some(drm) => if format@ == "DMA_DRM"@ {
                Some(drm@)
            } else {
                Some(format@)
            },
            None => Some(format@),
        },
    }
}

pub open spec fn shows_color(structure: CapsStructure) -> bool {
    ||| structure.name@ == "image/jpeg"@
    ||| structure.name@ == "video/x-raw"@ && match pixel_format(structure) {
        Some(format) => !mono_format(format),
        None => true,
    }
}

/// A device streams colour unless every raw format that it offers is mono.
pub open spec fn color_device(device: VideoDevice) -> bool {
    match device.caps {
        None => true,
        Some(caps) => {
            ||| exists|i: int| 0 <= i < caps@.len() && shows_color(#[trigger] caps@[i])
            ||| forall|i: int|
                0 <= i < caps@.len() ==> (#[trigger] caps@[i]).name@ != "video/x-raw"@
        },
    }
}

fn structure_shows_color(structure: &CapsStructure) -> (r: bool)
    ensures
        r == shows_color(*structure),
{
    if text::str_eq(structure.name.as_str(), "image/jpeg") {
        return true;
    }
    if !text::str_eq(structure.name.as_str(), "video/x-raw") {
        return false;
    }
    match &structure.format {
        None => true,
        Some(format) => match &structure.drm_format {
            Some(drm) => {
                if text::str_eq(format.as_str(), "DMA_DRM") {
                    !is_mono_format(drm.as_str())
                } else {
                    !is_mono_format(format.as_str())
                }
            },
            None => !is_mono_format(format.as_str()),
        },
    }
}

pub fn has_color_caps(device: &VideoDevice) -> (r: bool)
    ensures
        r == color_device(*device),
{
    let caps = match &device.caps {
        None => return true,
        Some(caps) => caps,
    };
    let mut saw_raw_video = false;
    for i in 0..caps.len()
        invariant
            device.caps == Some(*caps),
            forall|j: int| 0 <= j < i ==> !shows_color(#[trigger] caps@[j]),
            saw_raw_video == exists|j: int|
                0 <= j < i && (#[trigger] caps@[j]).name@ == "video/x-raw"@,
    {
        if structure_shows_color(&caps[i]) {
            return true;
        }
        if text::str_eq(caps[i].name.as_str(), "video/x-raw") {
            saw_raw_video = true;
        }
    }
    !saw_raw_video
}

pub open spec fn is_video_path(path: Seq<char>) -> bool {
    text::starts(path, "/dev/video"@)
}

fn names_video_path(path: &str) -> (r: bool)
    ensures
        r == is_video_path(path@),
{
    text::starts_with_str(text::chars(path).as_slice(), "/dev/video")
}

/// The node that a device captures from.
pub open spec fn capture_path(device: VideoDevice) -> Option<Seq<char>> {
    match device.properties {
        None => None,
        Some(p) => if p.v4l2_path is Some && is_video_path(p.v4l2_path->0@) {
            Some(p.v4l2_path->0@)
        } else if p.device_path is Some && is_video_path(p.device_path->0@) {
            Some(p.device_path->0@)
        } else {
            None
        },
    }
}

pub fn device_video_node(device: &VideoDevice) -> (r: Option<String>)
    ensures
        text::optional(r) == capture_path(*device),
{
    let properties = match &device.properties {
        None => return None,
        Some(properties) => properties,
    };
    if let Some(path) = &properties.v4l2_path {
        if names_video_path(path.as_str()) {
            return Some(path.clone());
        }
    }
    if let Some(path) = &properties.device_path {
        if names_video_path(path.as_str()) {
            return Some(path.clone());
        }
    }
    None
}

/// The node that is shown for a device, whatever its name where the V4L2 interface gives it.
pub open spec fn shown_path(p: DeviceProperties) -> Option<Seq<char>> {
    if p.v4l2_path is Some {
        Some(p.v4l2_path->0@)
    } else if p.device_path is Some && is_video_path(p.device_path->0@) {
        Some(p.device_path->0@)
    } else {
        None
    }
}

pub fn v4l2_node_of(properties: &DeviceProperties) -> (r: Option<String>)
    ensures
        text::optional(r) == shown_path(*properties),
{
    if let Some(path) = &properties.v4l2_path {
        return Some(path.clone());
    }
    if let Some(path) = &properties.device_path {
        if names_video_path(path.as_str()) {
            return Some(path.clone());
        }
    }
    None
}

/// The name by which PipeWire is asked for a device.
pub open spec fn target_of(p: DeviceProperties) -> Option<Seq<char>> {
    if p.node_name is Some {
        Some(p.node_name->0@)
    } else if p.object_serial is Some {
        Some(p.object_serial->0@)
    } else if p.object_id is Some {
        Some(p.object_id->0@)
    } else {
        text::optional(p.object_path)
    }
}

pub fn pipewire_target(properties: &DeviceProperties) -> (r: Option<String>)
    ensures
        text::optional(r) == target_of(*properties),
{
    if let Some(name) = &properties.node_name {
        return Some(name.clone());
    }
    if let Some(serial) = &properties.object_serial {
        return Some(serial.clone());
    }
    if let Some(id) = &properties.object_id {
        return Some(id.clone());
    }
    match &properties.object_path {
        Some(path) => Some(path.clone()),
        None => None,
    }
}

pub open spec fn ids_of(ids: Seq<NodeIds>, node: Seq<char>) -> Option<(u16, u16)>
    decreases ids.len(),
{
    if ids.len() == 0 {
        None
    } else if ids[0].node@ == node {
        Some((ids[0].vid, ids[0].pid))
    } else {
        ids_of(ids.skip(1), node)
    }
}

pub fn usb_ids_of(ids: &Vec<NodeIds>, node: &str) -> (r: Option<(u16, u16)>)
    ensures
        r == ids_of(ids@, node@),
{
    proof {
        assert(ids@.skip(0) =~= ids@);
    }
    for i in 0..ids.len()
        invariant
            ids_of(ids@, node@) == ids_of(ids@.skip(i as int), node@),
    {
        if text::str_eq(ids[i].node.as_str(), node) {
            return Some((ids[i].vid, ids[i].pid));
        }
        proof {
            assert(ids@.skip(i as int).skip(1) =~= ids@.skip(i as int + 1));
        }
    }
    None
}

/// A known device that streams infrared only in a forced mode.
pub open spec fn forced_mode(devices: Seq<IrDevice>, vid: u16, pid: u16, want_color: bool) -> bool {
    !want_color && match led::known_device(devices, vid, pid) {
        Some(device) => device.requires_ir_yuy2,
        None => false,
    }
}

pub fn requires_forced_ir_yuy2(
    devices: &Vec<IrDevice>,
    vid: u16,
    pid: u16,
    want_color: bool,
) -> (r: bool)
    ensures
        r == forced_mode(devices@, vid, pid, want_color),
{
    !want_color && match led::find_device(devices, vid, pid) {
        Some(device) => device.requires_ir_yuy2,
        None => false,
    }
}

pub open spec fn node_forced_mode(
    devices: Seq<IrDevice>,
    ids: Seq<NodeIds>,
    node: Seq<char>,
    want_color: bool,
) -> bool {
    match ids_of(ids, node) {
        Some((vid, pid)) => forced_mode(devices, vid, pid, want_color),
        None => false,
    }
}

/// The forced mode belongs to the USB device, not to how the source is spelled, so it is looked up
/// from the node.
pub fn node_requires_forced_ir_yuy2(
    devices: &Vec<IrDevice>,
    ids: &Vec<NodeIds>,
    node: &str,
    want_color: bool,
) -> (r: bool)
    ensures
        r == node_forced_mode(devices@, ids@, node@, want_color),
{
    match usb_ids_of(ids, node) {
        Some((vid, pid)) => requires_forced_ir_yuy2(devices, vid, pid, want_color),
        None => false,
    }
}

/// A node that can be captured from, and its spectrum.
pub struct CaptureNode {
    pub node: String,
    pub is_color: bool,
}

pub struct Capture {
    pub node: Seq<char>,
    pub color: bool,
}

pub open spec fn captures(nodes: Seq<CaptureNode>) -> Seq<Capture> {
    Seq::new(nodes.len(), |i: int| Capture { node: nodes[i].node@, color: nodes[i].is_color })
}

pub open spec fn names_node(nodes: Seq<Capture>, node: Seq<char>) -> bool {
    exists|i: int| 0 <= i < nodes.len() && (#[trigger] nodes[i]).node == node
}

/// The nodes of the devices, each once, with the spectrum of the first device that has it.
pub open spec fn capture_nodes_of(devices: Seq<VideoDevice>) -> Seq<Capture>
    decreases devices.len(),
{
    if devices.len() == 0 {
        seq![]
    } else {
        let before = capture_nodes_of(devices.drop_last());
        match capture_path(devices.last()) {
            None => before,
            Some(node) => if names_node(before, node) {
                before
            } else {
                before.push(Capture { node, color: color_device(devices.last()) })
            },
        }
    }
}

fn lists_node(nodes: &Vec<CaptureNode>, node: &str) -> (r: bool)
    ensures
        r == names_node(captures(nodes@), node@),
{
    for i in 0..nodes.len()
        invariant
            forall|j: int| 0 <= j < i ==> (#[trigger] nodes@[j]).node@ != node@,
    {
        if text::str_eq(nodes[i].node.as_str(), node) {
            proof {
                assert(captures(nodes@)[i as int].node == node@);
            }
            return true;
        }
    }
    false
}

/// Every node that a device captures from, once.
pub fn capture_nodes(devices: &Vec<VideoDevice>) -> (r: Vec<CaptureNode>)
    ensures
        captures(r@) == capture_nodes_of(devices@),
{
    let mut r: Vec<CaptureNode> = Vec::new();
    proof {
        assert(captures(r@) =~= capture_nodes_of(devices@.take(0)));
    }
    for i in 0..devices.len()
        invariant
            captures(r@) == capture_nodes_of(devices@.take(i as int)),
    {
        proof {
            text::lemma_take_push(devices@, i as int);
        }
        if let Some(node) = device_video_node(&devices[i]) {
            if !lists_node(&r, node.as_str()) {
                let is_color = has_color_caps(&devices[i]);
                let ghost before = r@;
                r.push(CaptureNode { node, is_color });
                proof {
                    assert(captures(r@) =~= captures(before).push(
                        Capture { node: node@, color: is_color },
                    ));
                }
            }
        }
    }
    proof {
        assert(devices@.take(devices@.len() as int) =~= devices@);
    }
    r
}

proof fn lemma_capture_nodes(devices: Seq<VideoDevice>)
    ensures
        forall|i: int, j: int|
            0 <= i < j < capture_nodes_of(devices).len() ==> (#[trigger] capture_nodes_of(
                devices,
            )[i]).node != (#[trigger] capture_nodes_of(devices)[j]).node,
        forall|k: int|
            0 <= k < devices.len() ==> match capture_path(#[trigger] devices[k]) {
                Some(node) => names_node(capture_nodes_of(devices), node),
                None => true,
            },
    decreases devices.len(),
{
    if devices.len() > 0 {
        let rest = devices.drop_last();
        lemma_capture_nodes(rest);
        let before = capture_nodes_of(rest);
        let now = capture_nodes_of(devices);
        assert forall|k: int| 0 <= k < devices.len() implies match capture_path(
            #[trigger] devices[k],
        ) {
            Some(node) => names_node(now, node),
            None => true,
        } by {
            if k < rest.len() {
                assert(devices[k] == rest[k]);
                if let Some(node) = capture_path(devices[k]) {
                    let i = choose|i: int| 0 <= i < before.len() && (#[trigger] before[i]).node == node;
                    assert(now[i].node == node);
                }
            } else if let Some(node) = capture_path(devices.last()) {
                if names_node(before, node) {
                    assert(now == before);
                } else {
                    assert(now.last().node == node);
                }
            }
        }
    }
}

/// Each node is listed once, and the node of every device is listed.
pub proof fn every_node_is_listed_once(devices: Seq<VideoDevice>, k: int)
    requires
        0 <= k < devices.len(),
    ensures
        forall|i: int, j: int|
            0 <= i < j < capture_nodes_of(devices).len() ==> (#[trigger] capture_nodes_of(
                devices,
            )[i]).node != (#[trigger] capture_nodes_of(devices)[j]).node,
        match capture_path(devices[k]) {
            Some(node) => names_node(capture_nodes_of(devices), node),
            None => true,
        },
{
    lemma_capture_nodes(devices);
}

/// The number of a node. One without a number comes after all that have one.
pub open spec fn node_number(node: Seq<char>) -> int {
    match numbered(node) {
        Some(n) => n,
        None => 0xffff_ffff,
    }
}

pub open spec fn numbered(node: Seq<char>) -> Option<int> {
    match text::without_prefix(node, "/dev/video"@) {
        Some(index) => text::parsed(index, 10, 0xffff_ffff),
        None => None,
    }
}

pub fn video_node_index(node: &str) -> (r: Option<u32>)
    ensures
        match r {
            Some(n) => numbered(node@) == Some(n as int),
            None => numbered(node@) is None,
        },
{
    let node = text::chars(node);
    match text::strip_prefix(node.as_slice(), "/dev/video") {
        Some(index) => text::parse_number(index, 10, 0xffff_ffff),
        None => None,
    }
}

pub(crate) fn number_of(node: &str) -> (r: u32)
    ensures
        r == node_number(node@),
{
    match video_node_index(node) {
        Some(n) => n,
        None => 0xffff_ffff,
    }
}

/// A node with its USB ids and its spectrum.
pub struct VideoNodeInfo {
    pub node: String,
    pub vid: u16,
    pub pid: u16,
    pub is_color: bool,
}

pub struct Video {
    pub node: Seq<char>,
    pub vid: u16,
    pub pid: u16,
    pub color: bool,
}

pub open spec fn videos(nodes: Seq<VideoNodeInfo>) -> Seq<Video> {
    Seq::new(
        nodes.len(),
        |i: int|
            Video {
                node: nodes[i].node@,
                vid: nodes[i].vid,
                pid: nodes[i].pid,
                color: nodes[i].is_color,
            },
    )
}

/// A node of the wanted device, of the wanted spectrum where one is wanted.
pub open spec fn is_candidate(
    info: Video,
    vid: u16,
    pid: u16,
    color: Option<bool>,
) -> bool {
    info.vid == vid && info.pid == pid && (color is Some ==> info.color == color->0)
}

/// The first candidate with the lowest number.
pub open spec fn lowest_candidate(
    nodes: Seq<Video>,
    vid: u16,
    pid: u16,
    color: Option<bool>,
) -> Option<int>
    decreases nodes.len(),
{
    if nodes.len() == 0 {
        None
    } else {
        let before = lowest_candidate(nodes.drop_last(), vid, pid, color);
        if !is_candidate(nodes.last(), vid, pid, color) {
            before
        } else {
            match before {
                None => Some(nodes.len() - 1),
                Some(i) => if node_number(nodes.last().node) < node_number(nodes[i].node) {
                    Some(nodes.len() - 1)
                } else {
                    before
                },
            }
        }
    }
}

/// What is chosen is a candidate, no candidate has a lower number, and it is the first with its
/// number. Nothing is chosen only where there is no candidate.
pub proof fn lowest_candidate_is_lowest(
    nodes: Seq<Video>,
    vid: u16,
    pid: u16,
    color: Option<bool>,
)
    ensures
        match lowest_candidate(nodes, vid, pid, color) {
            Some(i) => {
                &&& 0 <= i < nodes.len()
                &&& is_candidate(nodes[i], vid, pid, color)
                &&& forall|j: int|
                    0 <= j < nodes.len() && is_candidate(#[trigger] nodes[j], vid, pid, color)
                        ==> node_number(nodes[i].node) <= node_number(nodes[j].node) && (j < i
                        ==> node_number(nodes[i].node) < node_number(nodes[j].node))
            },
            None => forall|j: int|
                0 <= j < nodes.len() ==> !is_candidate(#[trigger] nodes[j], vid, pid, color),
        },
    decreases nodes.len(),
{
    if nodes.len() > 0 {
        let rest = nodes.drop_last();
        lowest_candidate_is_lowest(rest, vid, pid, color);
        assert forall|j: int| 0 <= j < rest.len() implies #[trigger] nodes[j] == rest[j] by {}
    }
}

fn lowest(nodes: &Vec<VideoNodeInfo>, vid: u16, pid: u16, color: Option<bool>) -> (r: Option<usize>)
    ensures
        match r {
            Some(i) => lowest_candidate(videos(nodes@), vid, pid, color) == Some(i as int) && i < nodes.len(),
            None => lowest_candidate(videos(nodes@), vid, pid, color) is None,
        },
{
    let mut best: Option<usize> = None;
    for k in 0..nodes.len()
        invariant
            match best {
                Some(i) => lowest_candidate(videos(nodes@).take(k as int), vid, pid, color) == Some(
                    i as int,
                ) && i < k,
                None => lowest_candidate(videos(nodes@).take(k as int), vid, pid, color) is None,
            },
    {
        proof {
            text::lemma_take_push(videos(nodes@), k as int);
        }
        let fits = match color {
            Some(color) => nodes[k].is_color == color,
            None => true,
        };
        if nodes[k].vid == vid && nodes[k].pid == pid && fits {
            best =
            match best {
                None => Some(k),
                Some(i) => {
                    if number_of(nodes[k].node.as_str()) < number_of(nodes[i].node.as_str()) {
                        Some(k)
                    } else {
                        best
                    }
                },
            };
        }
    }
    proof {
        assert(videos(nodes@).take(nodes@.len() as int) =~= videos(nodes@));
    }
    best
}

/// The node of a device with the wanted spectrum. A single-node camera that is known to stream
/// infrared in a forced mode advertises no mono node, so its own node serves for infrared.
pub open spec fn usb_node(
    nodes: Seq<Video>,
    vid: u16,
    pid: u16,
    want_color: bool,
    devices: Seq<IrDevice>,
) -> Option<Seq<char>> {
    match lowest_candidate(nodes, vid, pid, Some(want_color)) {
        Some(i) => Some(nodes[i].node),
        None => if forced_mode(devices, vid, pid, want_color) {
            match lowest_candidate(nodes, vid, pid, None) {
                Some(i) => Some(nodes[i].node),
                None => None,
            }
        } else {
            None
        },
    }
}

pub fn select_usb_node(
    nodes: &Vec<VideoNodeInfo>,
    vid: u16,
    pid: u16,
    want_color: bool,
    devices: &Vec<IrDevice>,
) -> (r: Option<String>)
    ensures
        text::optional(r) == usb_node(videos(nodes@), vid, pid, want_color, devices@),
{
    if let Some(i) = lowest(nodes, vid, pid, Some(want_color)) {
        return Some(nodes[i].node.clone());
    }
    if !requires_forced_ir_yuy2(devices, vid, pid, want_color) {
        return None;
    }
    match lowest(nodes, vid, pid, None) {
        Some(i) => Some(nodes[i].node.clone()),
        None => None,
    }
}

/// A device has a node to capture from exactly when one of its two paths is that of a video node. The
/// path of the V4L2 interface comes first; where there is none, or it is not a video node, the
/// device's own path is the node.
pub proof fn a_device_is_captured_from_a_video_path(device: VideoDevice, p: DeviceProperties)
    ensures
        device.properties is None ==> capture_path(device) is None,
        device.properties == Some(p) ==> {
            &&& (p.v4l2_path matches Some(path) ==> (text::starts(path@, "/dev/video"@)
                ==> capture_path(device) == Some(path@)))
            &&& (p.device_path matches Some(path) ==> (text::starts(path@, "/dev/video"@)
                ==> capture_path(device) is Some && ((p.v4l2_path is None || !text::starts(
                p.v4l2_path->0@,
                "/dev/video"@,
            )) ==> capture_path(device) == Some(path@))))
            &&& (capture_path(device) matches Some(node) ==> text::starts(node, "/dev/video"@) && (
            text::optional(p.v4l2_path) == Some(node) || text::optional(p.device_path) == Some(
                node,
            )))
        },
{
}

/// The node that is shown is the V4L2 interface's wherever it gives one, and otherwise the device's
/// own path where that is a video node. A device that can be captured from always shows one.
pub proof fn a_shown_node_is_one_of_the_paths(device: VideoDevice, p: DeviceProperties)
    requires
        device.properties == Some(p),
    ensures
        p.v4l2_path matches Some(path) ==> shown_path(p) == Some(path@),
        p.v4l2_path is None ==> shown_path(p) == (match p.device_path {
            Some(path) if text::starts(path@, "/dev/video"@) => Some(path@),
            _ => None,
        }),
        capture_path(device) is Some ==> shown_path(p) is Some,
        p.v4l2_path is None ==> shown_path(p) == capture_path(device),
{
}

/// PipeWire is asked for a device by its node's name, or else by its serial, its id or its path, in
/// that order, and only a device with none of them cannot be asked for.
pub proof fn a_target_is_the_first_name_given(p: DeviceProperties)
    ensures
        p.node_name matches Some(name) ==> target_of(p) == Some(name@),
        p.node_name is None ==> (p.object_serial matches Some(serial) ==> target_of(p) == Some(
            serial@,
        )),
        p.node_name is None && p.object_serial is None ==> (p.object_id matches Some(id)
            ==> target_of(p) == Some(id@)),
        p.node_name is None && p.object_serial is None && p.object_id is None ==> target_of(p)
            == text::optional(p.object_path),
        target_of(p) is None <==> p.node_name is None && p.object_serial is None && p.object_id
            is None && p.object_path is None,
{
}

/// A format is mono exactly when it is one of the grey ones, in any case and with any white space
/// around it.
pub proof fn grey_formats_are_mono(front: Seq<char>, format: Seq<char>, back: Seq<char>)
    requires
        text::all_of(front, CharClass::White),
        text::all_of(back, CharClass::White),
        format.len() > 0,
        !text::in_class(format[0], CharClass::White),
        !text::in_class(format.last(), CharClass::White),
    ensures
        mono_format(front + format + back) == {
            let name = text::uppered(format);
            ||| name.len() >= 4 && (name.take(4) == "GRAY"@ || name.take(4) == "GREY"@)
            ||| name == "R8"@
            ||| name == "R16"@
            ||| name == "Y8"@
            ||| name == "Y16"@
        },
{
    text::trimming_takes_off_both_ends_alone(front, format, back, CharClass::White);
    reveal_strlit("GRAY");
    reveal_strlit("GREY");
}

/// A device is infrared exactly when it offers raw video, all of it mono, and no pictures. What a
/// device does not say counts as colour.
pub proof fn a_device_is_infrared_only_where_all_is_mono(device: VideoDevice)
    ensures
        !color_device(device) <==> {
            &&& device.caps is Some
            &&& exists|i: int|
                0 <= i < (device.caps->0)@.len() && (#[trigger] (device.caps->0)@[i]).name@
                    == "video/x-raw"@
            &&& forall|i: int|
                0 <= i < (device.caps->0)@.len() ==> {
                    let structure = #[trigger] (device.caps->0)@[i];
                    &&& structure.name@ != "image/jpeg"@
                    &&& structure.name@ == "video/x-raw"@ ==> (pixel_format(structure) matches Some(
                        format,
                    ) && mono_format(format))
                }
        },
{
    reveal_strlit("image/jpeg");
    reveal_strlit("video/x-raw");
    assert("image/jpeg"@.len() != "video/x-raw"@.len());
    if let Some(caps) = device.caps {
        if !color_device(device) {
            let i = choose|i: int|
                0 <= i < caps@.len() && (#[trigger] caps@[i]).name@ == "video/x-raw"@;
            assert forall|i: int| 0 <= i < caps@.len() implies ({
                let structure = #[trigger] caps@[i];
                &&& structure.name@ != "image/jpeg"@
                &&& structure.name@ == "video/x-raw"@ ==> (pixel_format(structure) matches Some(
                    format,
                ) && mono_format(format))
            }) by {
                assert(!shows_color(caps@[i]));
            }
        }
    }
}

/// The format of a structure is the one that it says, and for a DRM buffer the one inside where that is
/// said.
pub proof fn the_format_inside_a_buffer_counts(structure: CapsStructure)
    ensures
        pixel_format(structure) is None <==> structure.format is None,
        structure.format matches Some(format) ==> {
            &&& format@ != "DMA_DRM"@ || structure.drm_format is None ==> pixel_format(structure)
                == Some(format@)
            &&& format@ == "DMA_DRM"@ && structure.drm_format is Some ==> pixel_format(structure)
                == Some(structure.drm_format->0@)
        },
{
}

/// The ids of a node are those of its first entry, and a node without an entry has none.
pub proof fn ids_are_looked_up_by_node(ids: Seq<NodeIds>, node: Seq<char>)
    ensures
        match ids_of(ids, node) {
            Some((vid, pid)) => exists|i: int|
                {
                    &&& 0 <= i < ids.len()
                    &&& (#[trigger] ids[i]).node@ == node
                    &&& ids[i].vid == vid
                    &&& ids[i].pid == pid
                    &&& forall|j: int| 0 <= j < i ==> (#[trigger] ids[j]).node@ != node
                },
            None => forall|i: int| 0 <= i < ids.len() ==> (#[trigger] ids[i]).node@ != node,
        },
    decreases ids.len(),
{
    if ids.len() > 0 && ids[0].node@ != node {
        let rest = ids.skip(1);
        ids_are_looked_up_by_node(rest, node);
        match ids_of(ids, node) {
            Some((vid, pid)) => {
                let i = choose|i: int|
                    {
                        &&& 0 <= i < rest.len()
                        &&& (#[trigger] rest[i]).node@ == node
                        &&& rest[i].vid == vid
                        &&& rest[i].pid == pid
                        &&& forall|j: int| 0 <= j < i ==> (#[trigger] rest[j]).node@ != node
                    };
                assert(ids[i + 1] == rest[i]);
                assert forall|j: int| 0 <= j < i + 1 implies (#[trigger] ids[j]).node@ != node by {
                    if j > 0 {
                        assert(ids[j] == rest[j - 1]);
                    }
                }
            },
            None => {
                assert forall|i: int| 0 <= i < ids.len() implies (#[trigger] ids[i]).node@
                    != node by {
                    if i > 0 {
                        assert(ids[i] == rest[i - 1]);
                    }
                }
            },
        }
    } else if ids.len() > 0 {
        assert(ids[0].node@ == node);
    }
}

/// A mode is forced only for infrared, and exactly for a device whose first entry in the table asks
/// for it.
pub proof fn a_mode_is_forced_for_infrared_alone(
    devices: Seq<IrDevice>,
    vid: u16,
    pid: u16,
    ids: Seq<NodeIds>,
    node: Seq<char>,
    want_color: bool,
)
    ensures
        !forced_mode(devices, vid, pid, true),
        forced_mode(devices, vid, pid, false) <==> (led::known_device(devices, vid, pid) matches Some(
            device,
        ) && device.requires_ir_yuy2),
        ids_of(ids, node) == Some((vid, pid)) ==> node_forced_mode(devices, ids, node, want_color)
            == forced_mode(devices, vid, pid, want_color),
        ids_of(ids, node) is None ==> !node_forced_mode(devices, ids, node, want_color),
{
}

/// Every listed node is that of some device, with the spectrum of the first device that has it.
pub proof fn a_listed_node_has_its_first_device_s_spectrum(devices: Seq<VideoDevice>, i: int)
    requires
        0 <= i < capture_nodes_of(devices).len(),
    ensures
        exists|k: int|
            {
                &&& 0 <= k < devices.len()
                &&& capture_path(#[trigger] devices[k]) == Some(capture_nodes_of(devices)[i].node)
                &&& capture_nodes_of(devices)[i].color == color_device(devices[k])
                &&& forall|j: int|
                    0 <= j < k ==> capture_path(#[trigger] devices[j]) != Some(
                        capture_nodes_of(devices)[i].node,
                    )
            },
    decreases devices.len(),
{
    let rest = devices.drop_last();
    let before = capture_nodes_of(rest);
    let now = capture_nodes_of(devices);
    if i < before.len() {
        assert(now[i] == before[i]);
        a_listed_node_has_its_first_device_s_spectrum(rest, i);
        let k = choose|k: int|
            {
                &&& 0 <= k < rest.len()
                &&& capture_path(#[trigger] rest[k]) == Some(before[i].node)
                &&& before[i].color == color_device(rest[k])
                &&& forall|j: int|
                    0 <= j < k ==> capture_path(#[trigger] rest[j]) != Some(before[i].node)
            };
        assert(devices[k] == rest[k]);
        assert forall|j: int| 0 <= j < k implies capture_path(#[trigger] devices[j]) != Some(
            now[i].node,
        ) by {
            assert(devices[j] == rest[j]);
        }
    } else {
        let k = devices.len() - 1;
        assert(capture_path(devices[k]) == Some(now[i].node));
        lemma_capture_nodes(rest);
        assert forall|j: int| 0 <= j < k implies capture_path(#[trigger] devices[j]) != Some(
            now[i].node,
        ) by {
            assert(devices[j] == rest[j]);
        }
    }
}

/// A node's number is the one behind its prefix, written as numbers are; what has none comes last.
pub proof fn nodes_are_numbered_by_their_suffix(n: u32, node: Seq<char>)
    ensures
        node_number("/dev/video"@ + text::decimal(n as nat)) == n,
        !text::starts(node, "/dev/video"@) ==> node_number(node) == u32::MAX,
        0 <= node_number(node) <= u32::MAX || numbered(node) is Some,
{
    text::numbers_read_back(n as nat, 10, 0xffff_ffff, seq![]);
    text::prefixes_come_off_again(text::decimal(n as nat), "/dev/video"@);
}

/// The node chosen for USB ids belongs to a device with these ids. It has the wanted spectrum unless
/// the device streams infrared only in a forced mode; no fitting node has a lower number. Nothing is
/// chosen only where no node of these ids fits.
pub proof fn usb_ids_choose_their_lowest_fitting_node(
    nodes: Seq<Video>,
    vid: u16,
    pid: u16,
    want_color: bool,
    devices: Seq<IrDevice>,
    k: int,
)
    requires
        0 <= k < nodes.len(),
        nodes[k].vid == vid,
        nodes[k].pid == pid,
        nodes[k].color == want_color || forced_mode(devices, vid, pid, want_color),
    ensures
        usb_node(nodes, vid, pid, want_color, devices) matches Some(node) && exists|i: int|
            {
                &&& 0 <= i < nodes.len()
                &&& (#[trigger] nodes[i]).node == node
                &&& nodes[i].vid == vid
                &&& nodes[i].pid == pid
                &&& nodes[i].color == want_color || forced_mode(devices, vid, pid, want_color)
                &&& nodes[k].color == want_color ==> nodes[i].color == want_color && node_number(
                    node,
                ) <= node_number(nodes[k].node)
            },
{
    lowest_candidate_is_lowest(nodes, vid, pid, Some(want_color));
    lowest_candidate_is_lowest(nodes, vid, pid, None);
    assert(is_candidate(nodes[k], vid, pid, None));
    match lowest_candidate(nodes, vid, pid, Some(want_color)) {
        Some(i) => {
            assert(nodes[i].node == usb_node(nodes, vid, pid, want_color, devices)->0);
        },
        None => {
            assert(!is_candidate(nodes[k], vid, pid, Some(want_color)));
            let i = lowest_candidate(nodes, vid, pid, None)->0;
            assert(nodes[i].node == usb_node(nodes, vid, pid, want_color, devices)->0);
        },
    }
}

/// Where no node of these ids fits, none is chosen.
pub proof fn usb_ids_choose_no_other_camera(
    nodes: Seq<Video>,
    vid: u16,
    pid: u16,
    want_color: bool,
    devices: Seq<IrDevice>,
)
    ensures
        usb_node(nodes, vid, pid, want_color, devices) matches Some(node) ==> exists|i: int|
            {
                &&& 0 <= i < nodes.len()
                &&& (#[trigger] nodes[i]).node == node
                &&& nodes[i].vid == vid
                &&& nodes[i].pid == pid
                &&& nodes[i].color == want_color || forced_mode(devices, vid, pid, want_color)
            },
{
    lowest_candidate_is_lowest(nodes, vid, pid, Some(want_color));
    lowest_candidate_is_lowest(nodes, vid, pid, None);
}

} // verus!
