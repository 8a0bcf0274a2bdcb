//! Checks of the GStreamer plugins and of the configured cameras.

use crate::camera::parse_usb_spec;
use crate::config::{Config, DEFAULT_RGB_CAMERA};
use crate::doctor::system;
use crate::report::{Finding, Report};
use crate::text::CharClass;
use crate::{camera, report, text};
use vstd::prelude::*;

verus! {

/// A camera that was found: how it is shown, and the source that selects it.
pub struct CameraEntry {
    pub label: String,
    pub target: String,
}

/// What a device path turned out to be.
pub enum NodeState {
    CharDevice,
    Other,
    Failed(String),
}

/// What was gathered of the cameras.
pub struct CameraFacts {
    /// The GStreamer elements that are missing, or why the registry could not be read.
    pub missing_elements: Result<Vec<String>, String>,
    pub os_release: String,
    pub rgb_cameras: Result<Vec<CameraEntry>, String>,
    pub ir_cameras: Result<Vec<CameraEntry>, String>,
    pub rgb_node: NodeState,
    pub ir_node: NodeState,
}

/// The sources that were found, without the one that is resolved at runtime.
pub open spec fn detected(cameras: Seq<CameraEntry>) -> Seq<Seq<char>>
    decreases cameras.len(),
{
    if cameras.len() == 0 {
        seq![]
    } else if cameras.last().target@ != DEFAULT_RGB_CAMERA@ {
        detected(cameras.drop_last()).push(cameras.last().target@)
    } else {
        detected(cameras.drop_last())
    }
}

pub open spec fn in_quotes(names: Seq<Seq<char>>) -> Seq<Seq<char>> {
    Seq::new(names.len(), |i: int| "\""@ + names[i] + "\""@)
}

/// What to set a camera to: one of the sources that were found, or, where that is valid, the one that
/// is resolved at runtime.
pub open spec fn source_remedy(
    cameras: Seq<CameraEntry>,
    key: Seq<char>,
    automatic: Option<Seq<char>>,
) -> Seq<char> {
    if detected(cameras).len() == 0 {
        match automatic {
            Some(automatic) =>
                "No PipeWire source is currently advertised. Reconnect the camera, then set "@ + key
                + " to a detected source, or to \""@ + automatic + "\" to resolve it at runtime."@,
            None => "No PipeWire source is currently advertised. Reconnect the camera, then set "@
                + key + " to a detected source."@,
        }
    } else {
        "Run `gaze config` to pick one interactively, or set "@ + key
            + " to one of the detected sources: "@ + text::joined(
            in_quotes(detected(cameras)),
            ", "@,
        )
    }
}

fn detected_sources(cameras: &Vec<CameraEntry>) -> (r: Vec<String>)
    ensures
        text::texts(r@) == detected(cameras@),
{
    let mut r: Vec<String> = Vec::new();
    proof {
        assert(text::texts(r@) =~= detected(cameras@.take(0)));
    }
    for i in 0..cameras.len()
        invariant
            text::texts(r@) == detected(cameras@.take(i as int)),
    {
        proof {
            text::lemma_take_push(cameras@, i as int);
        }
        if !text::str_eq(cameras[i].target.as_str(), DEFAULT_RGB_CAMERA) {
            let target = cameras[i].target.clone();
            proof {
                text::lemma_texts_push(r@, target);
            }
            r.push(target);
        }
    }
    proof {
        assert(cameras@.take(cameras@.len() as int) =~= cameras@);
    }
    r
}

fn quote_all(names: &Vec<String>) -> (r: Vec<String>)
    ensures
        text::texts(r@) == in_quotes(text::texts(names@)),
{
    let mut r: Vec<String> = Vec::new();
    let ghost all = in_quotes(text::texts(names@));
    proof {
        assert(text::texts(r@) =~= all.take(0));
    }
    for i in 0..names.len()
        invariant
            all == in_quotes(text::texts(names@)),
            text::texts(r@) == all.take(i as int),
    {
        let name = text::cat3("\"", names[i].as_str(), "\"");
        proof {
            text::lemma_take_push(all, i as int);
            text::lemma_texts_push(r@, name);
        }
        r.push(name);
    }
    proof {
        assert(all.take(names@.len() as int) =~= all);
    }
    r
}

pub fn detected_source_remedy(cameras: &Vec<CameraEntry>, key: &str, automatic: Option<&str>) -> (r:
    String)
    ensures
        r@ == source_remedy(cameras@, key@, text::optional_str(automatic)),
{
    let found = detected_sources(cameras);
    if found.len() == 0 {
        match automatic {
            Some(automatic) => text::cat5(
                "No PipeWire source is currently advertised. Reconnect the camera, then set ",
                key,
                " to a detected source, or to \"",
                automatic,
                "\" to resolve it at runtime.",
            ),
            None => text::cat3(
                "No PipeWire source is currently advertised. Reconnect the camera, then set ",
                key,
                " to a detected source.",
            ),
        }
    } else {
        let listed = text::join(&quote_all(&found), ", ");
        text::cat4(
            "Run `gaze config` to pick one interactively, or set ",
            key,
            " to one of the detected sources: ",
            listed.as_str(),
        )
    }
}

/// The remedy for missing GStreamer elements, by the family of the distribution.
pub open spec fn package_hint(os_release: Seq<char>) -> Seq<char> {
    let name = text::lowered(os_release);
    if text::mentions(name, "arch"@) || text::mentions(name, "manjaro"@) || text::mentions(
        name,
        "omarchy"@,
    ) {
        "Install them with `sudo pacman -S gst-plugins-base gst-plugins-good gst-plugin-pipewire`."@
    } else if text::mentions(name, "debian"@) || text::mentions(name, "ubuntu"@) {
        "Install them with `sudo apt install gstreamer1.0-plugins-base gstreamer1.0-plugins-good gstreamer1.0-pipewire`."@
    } else if text::mentions(name, "fedora"@) || text::mentions(name, "rhel"@) || text::mentions(
        name,
        "centos"@,
    ) {
        "Install them with `sudo dnf install gstreamer1-plugins-base gstreamer1-plugins-good pipewire-gstreamer`."@
    } else if text::mentions(name, "suse"@) {
        "Install them with `sudo zypper install gstreamer-plugins-base gstreamer-plugins-good gstreamer-plugin-pipewire`."@
    } else {
        "Install the GStreamer base, good, and PipeWire plugin packages for this distribution."@
    }
}

pub fn gstreamer_package_hint_for(os_release: &str) -> (r: &'static str)
    ensures
        r@ == package_hint(os_release@),
{
    let lowered = text::lower(text::chars(os_release).as_slice());
    let name = lowered.as_slice();
    if text::contains(name, "arch") || text::contains(name, "manjaro") || text::contains(
        name,
        "omarchy",
    ) {
        "Install them with `sudo pacman -S gst-plugins-base gst-plugins-good gst-plugin-pipewire`."
    } else if text::contains(name, "debian") || text::contains(name, "ubuntu") {
        "Install them with `sudo apt install gstreamer1.0-plugins-base gstreamer1.0-plugins-good gstreamer1.0-pipewire`."
    } else if text::contains(name, "fedora") || text::contains(name, "rhel") || text::contains(
        name,
        "centos",
    ) {
        "Install them with `sudo dnf install gstreamer1-plugins-base gstreamer1-plugins-good pipewire-gstreamer`."
    } else if text::contains(name, "suse") {
        "Install them with `sudo zypper install gstreamer-plugins-base gstreamer-plugins-good gstreamer-plugin-pipewire`."
    } else {
        "Install the GStreamer base, good, and PipeWire plugin packages for this distribution."
    }
}

pub open spec fn plugins_available(missing: Result<Vec<String>, String>) -> bool {
    missing matches Ok(missing) && missing@.len() == 0
}

pub open spec fn plugin_finding(
    missing: Result<Vec<String>, String>,
    os_release: Seq<char>,
) -> Finding {
    match missing {
        Ok(missing) => if missing@.len() == 0 {
            report::passing(
                "GStreamer plugins"@,
                "base, JPEG/V4L2, and PipeWire camera elements are available"@,
            )
        } else {
            report::failing(
                "GStreamer plugins"@,
                "required camera elements are missing: "@ + text::joined(
                    text::texts(missing@),
                    ", "@,
                ),
                package_hint(os_release),
            )
        },
        Err(error) => report::failing(
            "GStreamer plugins"@,
            "the plugin registry could not be initialized: "@ + error@,
            package_hint(os_release),
        ),
    }
}

pub fn check_gstreamer_plugins(
    report: &mut Report,
    missing: &Result<Vec<String>, String>,
    os_release: &str,
) -> (r: bool)
    ensures
        r == plugins_available(*missing),
        final(report)@ == old(report)@ + seq![plugin_finding(*missing, os_release@)],
{
    let hint = gstreamer_package_hint_for(os_release);
    match missing {
        Ok(missing) => {
            if missing.len() == 0 {
                report.pass(
                    "GStreamer plugins",
                    "base, JPEG/V4L2, and PipeWire camera elements are available",
                );
                true
            } else {
                let listed = text::join(missing, ", ");
                let message = text::cat2(
                    "required camera elements are missing: ",
                    listed.as_str(),
                );
                report.error("GStreamer plugins", message.as_str(), hint);
                false
            }
        },
        Err(error) => {
            let message = text::cat2(
                "the plugin registry could not be initialized: ",
                error.as_str(),
            );
            report.error("GStreamer plugins", message.as_str(), hint);
            false
        },
    }
}

/// Some camera that was found has this source.
pub open spec fn has_target(cameras: Seq<CameraEntry>, target: Seq<char>) -> bool {
    exists|i: int| 0 <= i < cameras.len() && (#[trigger] cameras[i]).target@ == target
}

fn finds_target(cameras: &Vec<CameraEntry>, target: &[char]) -> (r: bool)
    ensures
        r == has_target(cameras@, target@),
{
    for i in 0..cameras.len()
        invariant
            forall|j: int| 0 <= j < i ==> (#[trigger] cameras@[j]).target@ != target@,
    {
        if text::is_text(target, cameras[i].target.as_str()) {
            return true;
        }
    }
    false
}

pub open spec fn usb_ids(ids: (u16, u16)) -> Seq<char> {
    text::padded(ids.0 as nat, 16, 4) + ":"@ + text::padded(ids.1 as nat, 16, 4)
}

fn usb_ids_text(vid: u16, pid: u16) -> (r: String)
    ensures
        r@ == usb_ids((vid, pid)),
{
    let vid = text::hex_text(vid as u64, 4);
    let pid = text::hex_text(pid as u64, 4);
    text::cat3(vid.as_str(), ":", pid.as_str())
}

pub open spec fn rgb_node_finding(rgb: Seq<char>, node: NodeState) -> Finding {
    match node {
        NodeState::CharDevice => report::passing("RGB camera"@, rgb + " is a character device"@),
        NodeState::Other => report::failing(
            "RGB camera"@,
            rgb + " is not a character device"@,
            "Point cameras.rgb at a /dev/video* node."@,
        ),
        NodeState::Failed(error) => report::failing(
            "RGB camera"@,
            rgb + " is not accessible: "@ + error@,
            "Check the device path and permissions."@,
        ),
    }
}

/// What is said of the RGB camera, by the cameras that were found.
pub open spec fn rgb_found_finding(
    rgb: Seq<char>,
    cameras: Seq<CameraEntry>,
    node: NodeState,
) -> Finding {
    if rgb == DEFAULT_RGB_CAMERA@ {
        if detected(cameras).len() > 0 {
            report::passing(
                "RGB camera"@,
                text::decimal(detected(cameras).len())
                    + " color camera(s) visible through PipeWire"@,
            )
        } else {
            report::warned(
                "RGB camera"@,
                "no physical color camera was advertised by PipeWire"@,
                "Check camera privacy controls and run `gaze config` from the local desktop session."@,
            )
        }
    } else if text::starts(rgb, "pipewiresrc target-object="@) {
        if has_target(cameras, rgb) {
            report::passing("RGB camera"@, "the configured PipeWire source is visible"@)
        } else {
            report::failing(
                "RGB camera"@,
                "configured source is not visible: "@ + rgb,
                source_remedy(cameras, "cameras.rgb"@, Some(DEFAULT_RGB_CAMERA@)),
            )
        }
    } else if camera::usb_spec(rgb) is Some {
        report::passing(
            "RGB camera"@,
            "resolves the color node for USB "@ + usb_ids(camera::usb_spec(rgb)->0)
                + " at runtime"@,
        )
    } else if text::starts(rgb, "/dev/video"@) {
        rgb_node_finding(rgb, node)
    } else {
        report::warned(
            "RGB camera"@,
            "a custom GStreamer source is configured and was not opened by this read-only check"@,
            "Run `gaze auth` to verify that the custom source produces frames."@,
        )
    }
}

pub open spec fn rgb_finding(
    rgb: Seq<char>,
    cameras: Result<Vec<CameraEntry>, String>,
    node: NodeState,
) -> Finding {
    match cameras {
        Ok(cameras) => rgb_found_finding(rgb, cameras@, node),
        Err(error) => report::failing(
            "RGB camera"@,
            "GStreamer camera enumeration failed: "@ + error@,
            "Verify the GStreamer PipeWire plugin is installed and PipeWire is running."@,
        ),
    }
}

fn check_rgb_node(report: &mut Report, rgb: &str, node: &NodeState)
    ensures
        final(report)@ == old(report)@ + seq![rgb_node_finding(rgb@, *node)],
{
    match node {
        NodeState::CharDevice => {
            let message = text::cat2(rgb, " is a character device");
            report.pass("RGB camera", message.as_str());
        },
        NodeState::Other => {
            let message = text::cat2(rgb, " is not a character device");
            report.error(
                "RGB camera",
                message.as_str(),
                "Point cameras.rgb at a /dev/video* node.",
            );
        },
        NodeState::Failed(error) => {
            let message = text::cat3(rgb, " is not accessible: ", error.as_str());
            report.error("RGB camera", message.as_str(), "Check the device path and permissions.");
        },
    }
}

fn check_rgb(
    report: &mut Report,
    rgb: &[char],
    cameras: &Result<Vec<CameraEntry>, String>,
    node: &NodeState,
)
    ensures
        final(report)@ == old(report)@ + seq![rgb_finding(rgb@, *cameras, *node)],
{
    let shown = text::string(rgb);
    let cameras = match cameras {
        Ok(cameras) => cameras,
        Err(error) => {
            let message = text::cat2("GStreamer camera enumeration failed: ", error.as_str());
            report.error(
                "RGB camera",
                message.as_str(),
                "Verify the GStreamer PipeWire plugin is installed and PipeWire is running.",
            );
            return;
        },
    };
    if text::is_text(rgb, DEFAULT_RGB_CAMERA) {
        let found = detected_sources(cameras);
        proof {
            assert(detected(cameras@).len() == found@.len());
        }
        if found.len() > 0 {
            let count = text::decimal_text(found.len() as u64);
            let message = text::cat2(
                count.as_str(),
                " color camera(s) visible through PipeWire",
            );
            report.pass("RGB camera", message.as_str());
        } else {
            report.warning(
                "RGB camera",
                "no physical color camera was advertised by PipeWire",
                "Check camera privacy controls and run `gaze config` from the local desktop session.",
            );
        }
    } else if text::starts_with_str(rgb, "pipewiresrc target-object=") {
        if finds_target(cameras, rgb) {
            report.pass("RGB camera", "the configured PipeWire source is visible");
        } else {
            let message = text::cat2("configured source is not visible: ", shown.as_str());
            let fix = detected_source_remedy(cameras, "cameras.rgb", Some(DEFAULT_RGB_CAMERA));
            report.error("RGB camera", message.as_str(), fix.as_str());
        }
    } else if let Some((vid, pid)) = parse_usb_spec(shown.as_str()) {
        let ids = usb_ids_text(vid, pid);
        let message = text::cat3(
            "resolves the color node for USB ",
            ids.as_str(),
            " at runtime",
        );
        report.pass("RGB camera", message.as_str());
    } else if text::starts_with_str(rgb, "/dev/video") {
        check_rgb_node(report, shown.as_str(), node);
    } else {
        report.warning(
            "RGB camera",
            "a custom GStreamer source is configured and was not opened by this read-only check",
            "Run `gaze auth` to verify that the custom source produces frames.",
        );
    }
}

pub open spec fn ir_finding(
    ir: Seq<char>,
    cameras: Result<Vec<CameraEntry>, String>,
    node: NodeState,
) -> Finding {
    if text::starts(ir, "/dev/video"@) {
        match node {
            NodeState::CharDevice => report::passing("IR camera"@, ir + " is a character device"@),
            NodeState::Other => report::failing(
                "IR camera"@,
                ir + " is not a device node"@,
                "Choose the IR camera's /dev/video* node."@,
            ),
            NodeState::Failed(error) => report::failing(
                "IR camera"@,
                "cannot access "@ + ir + ": "@ + error@,
                "Correct cameras.ir or reconnect the IR camera."@,
            ),
        }
    } else if text::starts(ir, "pipewiresrc target-object="@) {
        match cameras {
            Ok(cameras) => if has_target(cameras@, ir) {
                report::passing("IR camera"@, "the configured PipeWire source is visible"@)
            } else {
                report::failing(
                    "IR camera"@,
                    "configured source is not visible: "@ + ir,
                    source_remedy(cameras@, "cameras.ir"@, None),
                )
            },
            Err(error) => report::failing(
                "IR camera"@,
                "GStreamer IR camera enumeration failed: "@ + error@,
                "Verify PipeWire is running and the IR device is connected."@,
            ),
        }
    } else if camera::usb_spec(ir) is Some {
        report::passing(
            "IR camera"@,
            "resolves the IR node for USB "@ + usb_ids(camera::usb_spec(ir)->0) + " at runtime"@,
        )
    } else {
        report::warned(
            "IR camera"@,
            "a custom GStreamer source is configured and was not opened by this read-only check"@,
            "Run `gaze auth` to verify that the IR source produces frames."@,
        )
    }
}

fn check_ir(
    report: &mut Report,
    ir: &[char],
    cameras: &Result<Vec<CameraEntry>, String>,
    node: &NodeState,
)
    ensures
        final(report)@ == old(report)@ + seq![ir_finding(ir@, *cameras, *node)],
{
    let shown = text::string(ir);
    if text::starts_with_str(ir, "/dev/video") {
        match node {
            NodeState::CharDevice => {
                let message = text::cat2(shown.as_str(), " is a character device");
                report.pass("IR camera", message.as_str());
            },
            NodeState::Other => {
                let message = text::cat2(shown.as_str(), " is not a device node");
                report.error(
                    "IR camera",
                    message.as_str(),
                    "Choose the IR camera's /dev/video* node.",
                );
            },
            NodeState::Failed(error) => {
                let message = text::cat4("cannot access ", shown.as_str(), ": ", error.as_str());
                report.error(
                    "IR camera",
                    message.as_str(),
                    "Correct cameras.ir or reconnect the IR camera.",
                );
            },
        }
    } else if text::starts_with_str(ir, "pipewiresrc target-object=") {
        match cameras {
            Ok(cameras) => {
                if finds_target(cameras, ir) {
                    report.pass("IR camera", "the configured PipeWire source is visible");
                } else {
                    let message = text::cat2("configured source is not visible: ", shown.as_str());
                    let fix = detected_source_remedy(cameras, "cameras.ir", None);
                    report.error("IR camera", message.as_str(), fix.as_str());
                }
            },
            Err(error) => {
                let message = text::cat2(
                    "GStreamer IR camera enumeration failed: ",
                    error.as_str(),
                );
                report.error(
                    "IR camera",
                    message.as_str(),
                    "Verify PipeWire is running and the IR device is connected.",
                );
            },
        }
    } else if let Some((vid, pid)) = parse_usb_spec(shown.as_str()) {
        let ids = usb_ids_text(vid, pid);
        let message = text::cat3("resolves the IR node for USB ", ids.as_str(), " at runtime");
        report.pass("IR camera", message.as_str());
    } else {
        report.warning(
            "IR camera",
            "a custom GStreamer source is configured and was not opened by this read-only check",
            "Run `gaze auth` to verify that the IR source produces frames.",
        );
    }
}

/// What is said of the cameras: the plugins first, and then each camera that is configured.
pub open spec fn camera_findings(config: Option<Config>, facts: CameraFacts) -> Seq<Finding> {
    seq![plugin_finding(facts.missing_elements, facts.os_release@)] + (
    if config is Some && plugins_available(facts.missing_elements) {
        let rgb = text::trimmed((config->0).cameras.rgb@, CharClass::White);
        let ir = text::trimmed((config->0).cameras.ir@, CharClass::White);
        report::only_if(rgb.len() > 0, rgb_finding(rgb, facts.rgb_cameras, facts.rgb_node))
            + report::only_if(ir.len() > 0, ir_finding(ir, facts.ir_cameras, facts.ir_node))
    } else {
        seq![]
    })
}

pub fn check_cameras(report: &mut Report, config: Option<&Config>, facts: &CameraFacts)
    ensures
        final(report)@ == old(report)@ + camera_findings(system::given(config), *facts),
{
    let ghost start = report@;
    let ready = check_gstreamer_plugins(
        report,
        &facts.missing_elements,
        facts.os_release.as_str(),
    );
    let ghost first = seq![plugin_finding(facts.missing_elements, facts.os_release@)];
    if !ready {
        proof {
            report::lemma_nothing(first);
        }
        return;
    }
    let config = match config {
        Some(config) => config,
        None => {
            proof {
                report::lemma_nothing(first);
            }
            return;
        },
    };
    let rgb_chars = text::chars(config.cameras.rgb.as_str());
    let rgb = text::trim(rgb_chars.as_slice(), CharClass::White);
    proof {
        report::lemma_nothing(report@);
    }
    if rgb.len() > 0 {
        check_rgb(report, rgb, &facts.rgb_cameras, &facts.rgb_node);
    }
    let ghost a = report::only_if(
        rgb@.len() > 0,
        rgb_finding(rgb@, facts.rgb_cameras, facts.rgb_node),
    );
    proof {
        assert(report@ == start + first + a);
        report::lemma_nothing(report@);
    }
    let ir_chars = text::chars(config.cameras.ir.as_str());
    let ir = text::trim(ir_chars.as_slice(), CharClass::White);
    if ir.len() > 0 {
        check_ir(report, ir, &facts.ir_cameras, &facts.ir_node);
    }
    proof {
        let b = report::only_if(
            ir@.len() > 0,
            ir_finding(ir@, facts.ir_cameras, facts.ir_node),
        );
        assert(report@ == start + first + a + b);
        report::lemma_then(start + first, a, b);
        report::lemma_then(start, first, a + b);
    }
}

/// The cameras that can be chosen are all but the primary one, in the order listed.
pub proof fn detected_cameras_are_found_by_parts(
    left: Seq<CameraEntry>,
    right: Seq<CameraEntry>,
    one: CameraEntry,
)
    ensures
        detected(left + right) == detected(left) + detected(right),
        detected(seq![one]) == (if one.target@ == "primary"@ {
            seq![]
        } else {
            seq![one.target@]
        }),
    decreases right.len(),
{
    let nothing = Seq::<CameraEntry>::empty();
    assert(seq![one].drop_last() =~= nothing);
    assert(detected(nothing) =~= seq![]);
    assert(detected(seq![one]) =~= (if one.target@ == "primary"@ {
        seq![]
    } else {
        seq![one.target@]
    }));
    let all = left + right;
    if right.len() == 0 {
        assert(all =~= left);
        assert(detected(left) + detected(right) =~= detected(left));
    } else {
        detected_cameras_are_found_by_parts(left, right.drop_last(), one);
        assert(all.drop_last() =~= left + right.drop_last());
        assert(all.last() == right.last());
        assert(detected(all) =~= detected(left) + detected(right));
    }
}

/// The remedy for a source names the setting, and every camera that could be chosen for it, in quotes.
pub proof fn a_remedy_names_every_camera(
    cameras: Seq<CameraEntry>,
    key: Seq<char>,
    automatic: Option<Seq<char>>,
    i: int,
)
    requires
        0 <= i < detected(cameras).len(),
    ensures
        text::ends(
            source_remedy(cameras, key, automatic),
            text::joined(in_quotes(detected(cameras)), ", "@),
        ),
        in_quotes(detected(cameras)).len() == detected(cameras).len(),
        in_quotes(detected(cameras))[i] == seq!['"'] + detected(cameras)[i] + seq!['"'],
        source_remedy(cameras, key, automatic) == source_remedy(cameras, key, None),
{
    reveal_strlit("\"");
    assert("\""@ =~= seq!['"']);
    let names = text::joined(in_quotes(detected(cameras)), ", "@);
    let remedy = source_remedy(cameras, key, automatic);
    assert(remedy.skip(remedy.len() - names.len()) =~= names);
}

/// A source is visible exactly where some camera of the list has it as its target, wherever it stands.
pub proof fn a_source_is_seen_anywhere_in_the_list(
    left: Seq<CameraEntry>,
    one: CameraEntry,
    right: Seq<CameraEntry>,
    target: Seq<char>,
)
    ensures
        has_target(left + seq![one] + right, target) <==> has_target(left, target) || one.target@
            == target || has_target(right, target),
        !has_target(seq![], target),
{
    let all = left + seq![one] + right;
    if has_target(left, target) {
        let i = choose|i: int| 0 <= i < left.len() && (#[trigger] left[i]).target@ == target;
        assert(all[i].target@ == target);
    }
    if one.target@ == target {
        assert(all[left.len() as int].target@ == target);
    }
    if has_target(right, target) {
        let i = choose|i: int| 0 <= i < right.len() && (#[trigger] right[i]).target@ == target;
        assert(all[left.len() + 1 + i].target@ == target);
    }
    if has_target(all, target) {
        let i = choose|i: int| 0 <= i < all.len() && (#[trigger] all[i]).target@ == target;
        if i < left.len() {
            assert(left[i].target@ == target);
        } else if i > left.len() {
            assert(right[i - left.len() - 1].target@ == target);
        }
    }
}

/// The plugins pass exactly when the registry was read and lacks none; everything else is an error.
pub proof fn plugins_pass_only_where_none_is_missing(
    missing: Result<Vec<String>, String>,
    os_release: Seq<char>,
)
    ensures
        plugin_finding(missing, os_release).level == report::Level::Pass <==> (missing matches Ok(missing)
            && missing@.len() == 0),
        plugin_finding(missing, os_release).level != report::Level::Pass ==> plugin_finding(
            missing,
            os_release,
        ).level == report::Level::Error && plugin_finding(missing, os_release).fix == Some(
            package_hint(os_release),
        ),
        plugins_available(missing) <==> plugin_finding(missing, os_release).level == report::Level::Pass,
{
}

/// The cameras themselves are examined exactly where a configuration is known and the plugins are
/// there: each that is set, and no other.
pub proof fn every_camera_that_is_set_is_examined(config: Option<Config>, facts: CameraFacts)
    ensures
        ({
            let found = camera_findings(config, facts);
            let examined = config is Some && plugins_available(facts.missing_elements);
            let rgb = text::trimmed((config->0).cameras.rgb@, CharClass::White);
            let ir = text::trimmed((config->0).cameras.ir@, CharClass::White);
            &&& found[0] == plugin_finding(facts.missing_elements, facts.os_release@)
            &&& !examined ==> found.len() == 1
            &&& examined ==> found.len() == 1 + (if rgb.len() > 0 {
                1int
            } else {
                0int
            }) + (if ir.len() > 0 {
                1int
            } else {
                0int
            })
            &&& examined && rgb.len() > 0 ==> found[1] == rgb_finding(
                rgb,
                facts.rgb_cameras,
                facts.rgb_node,
            )
            &&& examined && ir.len() > 0 ==> found.last() == ir_finding(
                ir,
                facts.ir_cameras,
                facts.ir_node,
            )
        }),
{
}

/// A colour source passes exactly when it can be seen: the primary one where a camera is there, a
/// target where the list has it, a node where it is a device, and USB ids in any case. A source of
/// the user's own is a warning, as is a primary one that is missing; the rest is an error.
pub proof fn a_colour_source_passes_only_where_it_is_seen(
    rgb: Seq<char>,
    cameras: Seq<CameraEntry>,
    node: NodeState,
)
    requires
        text::trimmed(rgb, CharClass::White) == rgb,
    ensures
        ({
            let found = rgb_found_finding(rgb, cameras, node);
            let primary = rgb == "primary"@;
            let target = text::starts(rgb, "pipewiresrc target-object="@);
            let usb = camera::usb_spec(rgb) is Some;
            let video = text::starts(rgb, "/dev/video"@);
            &&& primary ==> (found.level == report::Level::Pass <==> detected(cameras).len() > 0)
            &&& primary ==> (found.level == report::Level::Warning <==> detected(cameras).len() == 0)
            &&& target ==> (found.level == report::Level::Pass <==> has_target(cameras, rgb))
            &&& target ==> (found.level == report::Level::Error <==> !has_target(cameras, rgb))
            &&& usb ==> found.level == report::Level::Pass
            &&& video ==> (found.level == report::Level::Pass <==> node is CharDevice)
            &&& video ==> (found.level == report::Level::Error <==> !(node is CharDevice))
            &&& !primary && !target && !usb && !video ==> found.level == report::Level::Warning
        }),
{
    lemma_forms(rgb);
}

/// An infrared source passes exactly when it can be seen, and is a warning only where it is a source of
/// the user's own.
pub proof fn an_infrared_source_passes_only_where_it_is_seen(
    ir: Seq<char>,
    cameras: Result<Vec<CameraEntry>, String>,
    node: NodeState,
)
    requires
        text::trimmed(ir, CharClass::White) == ir,
    ensures
        ({
            let found = ir_finding(ir, cameras, node);
            let target = text::starts(ir, "pipewiresrc target-object="@);
            let usb = camera::usb_spec(ir) is Some;
            let video = text::starts(ir, "/dev/video"@);
            &&& target ==> (found.level == report::Level::Pass <==> (cameras matches Ok(cameras)
                && has_target(cameras@, ir)))
            &&& target ==> (found.level == report::Level::Error <==> found.level != report::Level::Pass)
            &&& usb ==> found.level == report::Level::Pass
            &&& video ==> (found.level == report::Level::Pass <==> node is CharDevice)
            &&& video ==> (found.level == report::Level::Error <==> !(node is CharDevice))
            &&& found.level == report::Level::Warning <==> !target && !usb && !video
        }),
{
    lemma_forms(ir);
}

/// A list of colour cameras that could not be read is an error, whatever the source.
pub proof fn a_list_that_failed_is_an_error(rgb: Seq<char>, error: String, node: NodeState)
    ensures
        rgb_finding(rgb, Err(error), node).level == report::Level::Error,
{
}

proof fn lemma_forms(source: Seq<char>)
    requires
        text::trimmed(source, CharClass::White) == source,
    ensures
        source == "primary"@ ==> !text::starts(source, "pipewiresrc target-object="@)
            && camera::usb_spec(source) is None && !text::starts(source, "/dev/video"@),
        text::starts(source, "pipewiresrc target-object="@) ==> camera::usb_spec(source) is None
            && !text::starts(source, "/dev/video"@),
        camera::usb_spec(source) is Some ==> !text::starts(source, "/dev/video"@),
{
    reveal_strlit("primary");
    reveal_strlit("pipewiresrc target-object=");
    reveal_strlit("/dev/video");
    reveal_strlit("usb:");
    if text::starts(source, "pipewiresrc target-object="@) {
        assert(source.take(26)[0] == source[0]);
        assert(source.take(26)[1] == source[1]);
        assert(source[0] == 'p' && source[1] == 'i');
    }
    if text::starts(source, "/dev/video"@) {
        assert(source.take(10)[0] == source[0]);
        assert(source[0] == '/');
    }
    if text::starts(source, "usb:"@) {
        assert(source.take(4)[0] == source[0]);
        assert(source[0] == 'u');
    }
}

proof fn lemma_four_digits(n: u16)
    ensures
        text::digits(n as nat, 16).len() <= 4,
{
    reveal_with_fuel(text::digits, 5);
    assert(n as nat / 16 / 16 / 16 < 16);
}

/// USB ids are shown as four digits each, with a colon between, from which the ids can be read again.
pub proof fn shown_ids_are_four_digits_each(ids: (u16, u16))
    ensures
        usb_ids(ids).len() == 9,
        usb_ids(ids)[4] == ':',
        usb_ids(ids).take(4) == text::padded(ids.0 as nat, 16, 4),
        usb_ids(ids).skip(5) == text::padded(ids.1 as nat, 16, 4),
{
    reveal_strlit(":");
    text::padding_fills_with_zeros(ids.0 as nat, 16, 4);
    text::padding_fills_with_zeros(ids.1 as nat, 16, 4);
    lemma_four_digits(ids.0);
    lemma_four_digits(ids.1);
    assert(usb_ids(ids).take(4) =~= text::padded(ids.0 as nat, 16, 4));
    assert(usb_ids(ids).skip(5) =~= text::padded(ids.1 as nat, 16, 4));
}

/// A system is told of its own packages by the family that its release names, in whatever case, and a
/// system of none is told what to look for.
pub proof fn packages_go_by_the_family(os_release: Seq<char>)
    ensures
        ({
            let name = text::lowered(os_release);
            let hint = package_hint(os_release);
            let arch = text::mentions(name, "arch"@) || text::mentions(name, "manjaro"@)
                || text::mentions(name, "omarchy"@);
            let debian = text::mentions(name, "debian"@) || text::mentions(name, "ubuntu"@);
            let fedora = text::mentions(name, "fedora"@) || text::mentions(name, "rhel"@)
                || text::mentions(name, "centos"@);
            let suse = text::mentions(name, "suse"@);
            &&& arch ==> hint
                == "Install them with `sudo pacman -S gst-plugins-base gst-plugins-good gst-plugin-pipewire`."@
            &&& debian && !arch ==> hint
                == "Install them with `sudo apt install gstreamer1.0-plugins-base gstreamer1.0-plugins-good gstreamer1.0-pipewire`."@
            &&& fedora && !debian && !arch ==> hint
                == "Install them with `sudo dnf install gstreamer1-plugins-base gstreamer1-plugins-good pipewire-gstreamer`."@
            &&& suse && !fedora && !debian && !arch ==> hint
                == "Install them with `sudo zypper install gstreamer-plugins-base gstreamer-plugins-good gstreamer-plugin-pipewire`."@
            &&& !suse && !fedora && !debian && !arch ==> hint
                == "Install the GStreamer base, good, and PipeWire plugin packages for this distribution."@
        }),
{
}

} // verus!
