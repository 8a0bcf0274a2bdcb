//! The cameras that can be chosen, and how they are shown.

use crate::camera::devices;
use crate::camera::devices::{has_color_caps, pipewire_target, v4l2_node_of, VideoDevice};
use crate::config::DEFAULT_RGB_CAMERA;
use crate::text;
use vstd::prelude::*;

verus! {

pub const PRIMARY_CAMERA_DISPLAY_NAME: &'static str = "Primary Camera";

pub const IR_NONE_DISPLAY_NAME: &'static str = "None";

/// A camera that can be chosen.
#[derive(Debug, PartialEq, Eq)]
pub struct CameraEntry {
    pub display_name: String,
    pub target: String,
    pub node: Option<String>,
}

pub struct Entry {
    pub name: Seq<char>,
    pub target: Seq<char>,
    pub node: Option<Seq<char>>,
}

impl View for CameraEntry {
    type V = Entry;

    open spec fn view(&self) -> Entry {
        Entry {
            name: self.display_name@,
            target: self.target@,
            node: text::optional(self.node),
        }
    }
}

pub open spec fn entries(cameras: Seq<CameraEntry>) -> Seq<Entry> {
    Seq::new(cameras.len(), |i: int| cameras[i]@)
}

/// What is shown for a camera, and the source that choosing it configures.
pub open spec fn choices(options: Seq<(String, String)>) -> Seq<(Seq<char>, Seq<char>)> {
    Seq::new(options.len(), |i: int| (options[i].0@, options[i].1@))
}

/// Another camera is shown by the same name.
pub open spec fn name_is_shared(cameras: Seq<Entry>, i: int) -> bool {
    exists|j: int|
        0 <= j < cameras.len() && j != i && (#[trigger] cameras[j]).name == cameras[i].name
}

/// A camera's name, with its node where the name does not tell it from another one.
pub open spec fn label(cameras: Seq<Entry>, i: int) -> Seq<char> {
    match cameras[i].node {
        Some(node) => if name_is_shared(cameras, i) {
            cameras[i].name + " ("@ + node + ")"@
        } else {
            cameras[i].name
        },
        None => cameras[i].name,
    }
}

pub open spec fn labelled(cameras: Seq<Entry>) -> Seq<(Seq<char>, Seq<char>)> {
    Seq::new(cameras.len(), |i: int| (label(cameras, i), cameras[i].target))
}

fn shares_name(cameras: &Vec<CameraEntry>, i: usize) -> (r: bool)
    requires
        i < cameras@.len(),
    ensures
        r == name_is_shared(entries(cameras@), i as int),
{
    let ghost all = entries(cameras@);
    for j in 0..cameras.len()
        invariant
            i < cameras@.len(),
            all == entries(cameras@),
            forall|k: int|
                0 <= k < j && k != i ==> (#[trigger] all[k]).name != all[i as int].name,
    {
        if j != i && text::str_eq(
            cameras[j].display_name.as_str(),
            cameras[i].display_name.as_str(),
        ) {
            proof {
                assert(all[j as int].name == all[i as int].name);
            }
            return true;
        }
    }
    false
}

pub fn label_camera_entries(cameras: Vec<CameraEntry>) -> (r: Vec<(String, String)>)
    ensures
        choices(r@) == labelled(entries(cameras@)),
{
    let mut r: Vec<(String, String)> = Vec::new();
    let ghost all = entries(cameras@);
    for i in 0..cameras.len()
        invariant
            all == entries(cameras@),
            r@.len() == i,
            forall|j: int|
                0 <= j < i ==> ((#[trigger] r@[j]).0@, r@[j].1@) == (label(all, j), all[j].target),
    {
        let shared = shares_name(&cameras, i);
        let name = match &cameras[i].node {
            Some(node) => {
                if shared {
                    text::cat4(cameras[i].display_name.as_str(), " (", node.as_str(), ")")
                } else {
                    cameras[i].display_name.clone()
                }
            },
            None => cameras[i].display_name.clone(),
        };
        r.push((name, cameras[i].target.clone()));
    }
    proof {
        assert(choices(r@) =~= labelled(all));
    }
    r
}

pub open spec fn lists_target(cameras: Seq<Entry>, target: Seq<char>) -> bool {
    exists|i: int| 0 <= i < cameras.len() && (#[trigger] cameras[i]).target == target
}

/// A device as a camera that can be chosen: one of PipeWire's, of the wanted spectrum, with a target.
pub open spec fn entry_of(device: VideoDevice, want_color: Option<bool>) -> Option<Entry> {
    match device.properties {
        None => None,
        Some(properties) => if properties.pipewire && (want_color is Some ==> want_color->0
            == devices::color_device(device)) && devices::target_of(properties) is Some {
            Some(
                Entry {
                    name: device.display_name@,
                    target: "pipewiresrc target-object="@ + devices::target_of(properties)->0,
                    node: devices::shown_path(properties),
                },
            )
        } else {
            None
        },
    }
}

/// The cameras among the devices, each target once.
pub open spec fn collected(found: Seq<VideoDevice>, want_color: Option<bool>) -> Seq<Entry>
    decreases found.len(),
{
    if found.len() == 0 {
        seq![]
    } else {
        let before = collected(found.drop_last(), want_color);
        match entry_of(found.last(), want_color) {
            None => before,
            Some(entry) => if lists_target(before, entry.target) {
                before
            } else {
                before.push(entry)
            },
        }
    }
}

fn device_entry(device: &VideoDevice, want_color: Option<bool>) -> (r: Option<CameraEntry>)
    ensures
        match r {
            Some(entry) => entry_of(*device, want_color) == Some(entry@),
            None => entry_of(*device, want_color) is None,
        },
{
    let properties = match &device.properties {
        None => return None,
        Some(properties) => properties,
    };
    if !properties.pipewire {
        return None;
    }
    if let Some(want_color) = want_color {
        if want_color != has_color_caps(device) {
            return None;
        }
    }
    match pipewire_target(properties) {
        None => None,
        Some(target) => {
            let target = text::cat2("pipewiresrc target-object=", target.as_str());
            Some(
                CameraEntry {
                    display_name: device.display_name.clone(),
                    target,
                    node: v4l2_node_of(properties),
                },
            )
        },
    }
}

fn holds_target(cameras: &Vec<CameraEntry>, target: &str) -> (r: bool)
    ensures
        r == lists_target(entries(cameras@), target@),
{
    let ghost all = entries(cameras@);
    for i in 0..cameras.len()
        invariant
            all == entries(cameras@),
            forall|j: int| 0 <= j < i ==> (#[trigger] all[j]).target != target@,
    {
        if text::str_eq(cameras[i].target.as_str(), target) {
            proof {
                assert(all[i as int].target == target@);
            }
            return true;
        }
    }
    false
}

pub fn collect_camera_entries(found: &Vec<VideoDevice>, want_color: Option<bool>) -> (r: Vec<
    CameraEntry,
>)
    ensures
        entries(r@) == collected(found@, want_color),
{
    let mut r: Vec<CameraEntry> = Vec::new();
    proof {
        assert(entries(r@) =~= collected(found@.take(0), want_color));
    }
    for i in 0..found.len()
        invariant
            entries(r@) == collected(found@.take(i as int), want_color),
    {
        proof {
            text::lemma_take_push(found@, i as int);
        }
        if let Some(entry) = device_entry(&found[i], want_color) {
            if !holds_target(&r, entry.target.as_str()) {
                let ghost before = r@;
                let ghost new = entry@;
                r.push(entry);
                proof {
                    assert(entries(r@) =~= entries(before).push(new));
                }
            }
        }
    }
    proof {
        assert(found@.take(found@.len() as int) =~= found@);
    }
    r
}

/// No two of the cameras that can be chosen have the same target.
pub proof fn every_target_is_offered_once(found: Seq<VideoDevice>, want_color: Option<bool>)
    ensures
        forall|i: int, j: int|
            0 <= i < j < collected(found, want_color).len() ==> (#[trigger] collected(
                found,
                want_color,
            )[i]).target != (#[trigger] collected(found, want_color)[j]).target,
    decreases found.len(),
{
    if found.len() > 0 {
        every_target_is_offered_once(found.drop_last(), want_color);
    }
}

/// The camera that is resolved at runtime.
pub open spec fn primary_entry() -> Entry {
    Entry { name: PRIMARY_CAMERA_DISPLAY_NAME@, target: DEFAULT_RGB_CAMERA@, node: None }
}

/// The colour cameras, led by the one that is resolved at runtime.
pub fn enumerate_cameras(found: &Vec<VideoDevice>) -> (r: Vec<(String, String)>)
    ensures
        choices(r@) == labelled(seq![primary_entry()] + collected(found@, Some(true))),
{
    let mut cameras: Vec<CameraEntry> = Vec::new();
    cameras.push(
        CameraEntry {
            display_name: PRIMARY_CAMERA_DISPLAY_NAME.to_owned(),
            target: DEFAULT_RGB_CAMERA.to_owned(),
            node: None,
        },
    );
    let mut rest = collect_camera_entries(found, Some(true));
    let ghost added = rest@;
    cameras.append(&mut rest);
    proof {
        assert(entries(cameras@) =~= seq![primary_entry()] + entries(added));
    }
    label_camera_entries(cameras)
}

/// The infrared cameras. Where no device is known to be mono, any of several may be.
pub open spec fn ir_cameras(found: Seq<VideoDevice>) -> Seq<(Seq<char>, Seq<char>)> {
    let mono = collected(found, Some(false));
    let all = collected(found, None);
    if mono.len() > 0 {
        labelled(mono)
    } else if all.len() < 2 {
        seq![]
    } else {
        labelled(all)
    }
}

pub fn enumerate_ir_cameras(found: &Vec<VideoDevice>) -> (r: Vec<(String, String)>)
    ensures
        choices(r@) == ir_cameras(found@),
{
    let mono = collect_camera_entries(found, Some(false));
    proof {
        assert(entries(mono@).len() == mono@.len());
    }
    if mono.len() > 0 {
        return label_camera_entries(mono);
    }
    let all = collect_camera_entries(found, None);
    proof {
        assert(entries(all@).len() == all@.len());
    }
    if all.len() < 2 {
        let none: Vec<(String, String)> = Vec::new();
        proof {
            assert(choices(none@) =~= seq![]);
        }
        return none;
    }
    label_camera_entries(all)
}

/// The infrared cameras to choose from, always led by the entry for none, so that an index means the
/// same in every front end. Where the devices could not be listed, that entry is all there is.
pub fn ir_choices(found: Option<&Vec<VideoDevice>>) -> (r: Vec<(String, String)>)
    ensures
        choices(r@) == seq![(IR_NONE_DISPLAY_NAME@, Seq::<char>::empty())] + match found {
            Some(found) => ir_cameras(found@),
            None => seq![],
        },
{
    let mut options: Vec<(String, String)> = Vec::new();
    options.push((IR_NONE_DISPLAY_NAME.to_owned(), String::new()));
    let mut rest = match found {
        Some(found) => enumerate_ir_cameras(found),
        None => Vec::new(),
    };
    let ghost added = rest@;
    options.append(&mut rest);
    proof {
        let expected = match found {
            Some(found) => ir_cameras(found@),
            None => seq![],
        };
        assert(choices(added) =~= expected);
        assert(choices(options@) =~= seq![(IR_NONE_DISPLAY_NAME@, Seq::<char>::empty())]
            + choices(added));
    }
    options
}

pub open spec fn offers(options: Seq<(Seq<char>, Seq<char>)>, configured: Seq<char>) -> bool {
    exists|i: int| 0 <= i < options.len() && (#[trigger] options[i]).1 == configured
}

fn position(options: &Vec<(String, String)>, configured: &str) -> (r: Option<usize>)
    ensures
        match r {
            Some(i) => i < options@.len() && choices(options@)[i as int].1 == configured@
                && forall|j: int| 0 <= j < i ==> (#[trigger] choices(options@)[j]).1 != configured@,
            None => !offers(choices(options@), configured@),
        },
{
    let ghost all = choices(options@);
    for i in 0..options.len()
        invariant
            all == choices(options@),
            forall|j: int| 0 <= j < i ==> (#[trigger] all[j]).1 != configured@,
    {
        if text::str_eq(options[i].1.as_str(), configured) {
            return Some(i);
        }
    }
    None
}

pub fn is_listed_source(options: &Vec<(String, String)>, configured: &str) -> (r: bool)
    ensures
        r == offers(choices(options@), configured@),
{
    match position(options, configured) {
        Some(i) => {
            proof {
                assert(choices(options@)[i as int].1 == configured@);
            }
            true
        },
        None => false,
    }
}

/// The place of the configured source in the list, or the first place where it is not listed.
pub fn source_index(options: &Vec<(String, String)>, configured: &str) -> (r: usize)
    ensures
        if offers(choices(options@), configured@) {
            r < options@.len() && choices(options@)[r as int].1 == configured@ && forall|j: int|
                0 <= j < r ==> (#[trigger] choices(options@)[j]).1 != configured@
        } else {
            r == 0
        },
{
    match position(options, configured) {
        Some(i) => {
            proof {
                assert(choices(options@)[i as int].1 == configured@);
            }
            i
        },
        None => 0,
    }
}

/// Every camera that can be chosen is a PipeWire device of the wanted spectrum, chosen by its target
/// and shown by its name; and every such device can be chosen.
pub proof fn every_fitting_device_can_be_chosen(
    found: Seq<VideoDevice>,
    want_color: Option<bool>,
    k: int,
)
    ensures
        0 <= k < found.len() && (found[k].properties matches Some(p) && p.pipewire
            && devices::target_of(p) is Some) && (want_color is None || want_color == Some(
            devices::color_device(found[k]),
        )) ==> lists_target(
            collected(found, want_color),
            "pipewiresrc target-object="@ + devices::target_of(found[k].properties->0)->0,
        ),
        forall|i: int|
            #![trigger collected(found, want_color)[i]]
            0 <= i < collected(found, want_color).len() ==> is_entry_of_some(
                found,
                want_color,
                collected(found, want_color)[i],
            ),
    decreases found.len(),
{
    if found.len() > 0 {
        let rest = found.drop_last();
        let n = found.len() - 1;
        every_fitting_device_can_be_chosen(rest, want_color, k);
        let before = collected(rest, want_color);
        let now = collected(found, want_color);
        assert forall|i: int| #![trigger now[i]] 0 <= i < now.len() implies is_entry_of_some(
            found,
            want_color,
            now[i],
        ) by {
            if i < before.len() {
                assert(now[i] == before[i]);
                let m = choose|m: int|
                    0 <= m < rest.len() && shown_as(#[trigger] rest[m], want_color, before[i]);
                assert(found[m] == rest[m]);
            } else {
                assert(shown_as(found[n], want_color, now[i]));
            }
        }
        if 0 <= k < n {
            assert(rest[k] == found[k]);
            if lists_target(
                before,
                "pipewiresrc target-object="@ + devices::target_of(found[k].properties->0)->0,
            ) {
                let target = "pipewiresrc target-object="@ + devices::target_of(
                    found[k].properties->0,
                )->0;
                let i = choose|i: int| 0 <= i < before.len() && (#[trigger] before[i]).target == target;
                assert(now[i].target == target);
            }
        } else if k == n {
            if let Some(entry) = entry_of(found[n], want_color) {
                if !lists_target(before, entry.target) {
                    assert(now[now.len() - 1].target == entry.target);
                }
            }
        }
    }
}

/// An entry that shows a device: PipeWire's, of the wanted spectrum, by its name, target and node.
pub open spec fn shown_as(device: VideoDevice, want_color: Option<bool>, entry: Entry) -> bool {
    &&& device.properties matches Some(p)
    &&& p.pipewire
    &&& want_color is None || want_color == Some(devices::color_device(device))
    &&& devices::target_of(p) is Some
    &&& entry.name == device.display_name@
    &&& entry.target == "pipewiresrc target-object="@ + devices::target_of(p)->0
    &&& entry.node == devices::shown_path(p)
}

pub open spec fn is_entry_of_some(
    found: Seq<VideoDevice>,
    want_color: Option<bool>,
    entry: Entry,
) -> bool {
    exists|k: int| 0 <= k < found.len() && shown_as(#[trigger] found[k], want_color, entry)
}

/// A camera is shown by its name, and its node is added exactly where another camera has the same name
/// and the node is known. What choosing it configures is its target.
pub proof fn shared_names_are_told_apart(cameras: Seq<Entry>, i: int, j: int)
    requires
        0 <= i < cameras.len(),
        0 <= j < cameras.len(),
    ensures
        labelled(cameras).len() == cameras.len(),
        labelled(cameras)[i].1 == cameras[i].target,
        text::starts(labelled(cameras)[i].0, cameras[i].name),
        i != j && cameras[i].name == cameras[j].name && cameras[i].node is Some && cameras[j].node
            is Some && cameras[i].node != cameras[j].node ==> labelled(cameras)[i].0 != labelled(
            cameras,
        )[j].0,
        labelled(cameras)[i].0 == cameras[i].name <==> cameras[i].node is None || (forall|k: int|
            0 <= k < cameras.len() && k != i ==> (#[trigger] cameras[k]).name != cameras[i].name),
{
    reveal_strlit(" (");
    reveal_strlit(")");
    let name = cameras[i].name;
    assert(label(cameras, i).take(name.len() as int) =~= name);
    if i != j && name == cameras[j].name && cameras[i].node is Some && cameras[j].node is Some {
        assert(name_is_shared(cameras, i));
        assert(name_is_shared(cameras, j));
        let a = cameras[i].node->0;
        let b = cameras[j].node->0;
        let s = label(cameras, i);
        let t = label(cameras, j);
        if s == t {
            assert(s.subrange(name.len() as int + 2, s.len() - 1) =~= a);
            assert(t.subrange(name.len() as int + 2, t.len() - 1) =~= b);
        }
    }
    if cameras[i].node is Some && name_is_shared(cameras, i) {
        assert(label(cameras, i).len() > name.len());
    }
}

/// The infrared cameras are the mono ones where there are any; otherwise all of them, unless there is
/// only one.
pub proof fn infrared_cameras_are_mono_where_some_are(found: Seq<VideoDevice>)
    ensures
        collected(found, Some(false)).len() > 0 ==> ir_cameras(found) == labelled(
            collected(found, Some(false)),
        ),
        collected(found, Some(false)).len() == 0 && collected(found, None).len() >= 2 ==> ir_cameras(
            found,
        ) == labelled(collected(found, None)),
        collected(found, Some(false)).len() == 0 && collected(found, None).len() <= 1 ==> ir_cameras(
            found,
        ).len() == 0,
{
}

/// Cameras that are found later change nothing about those before them: they come after, so that of
/// two devices with one target the first is listed.
pub proof fn later_cameras_come_after(
    found: Seq<VideoDevice>,
    more: Seq<VideoDevice>,
    want_color: Option<bool>,
)
    ensures
        collected(found, want_color).len() <= collected(found + more, want_color).len(),
        collected(found + more, want_color).take(collected(found, want_color).len() as int)
            == collected(found, want_color),
    decreases more.len(),
{
    let all = found + more;
    let first = collected(found, want_color);
    if more.len() == 0 {
        assert(all =~= found);
        assert(first.take(first.len() as int) =~= first);
    } else {
        later_cameras_come_after(found, more.drop_last(), want_color);
        assert(all.drop_last() =~= found + more.drop_last());
        assert(all.last() == more.last());
        let before = collected(found + more.drop_last(), want_color);
        assert(collected(all, want_color).take(first.len() as int) =~= before.take(
            first.len() as int,
        ));
    }
}

/// The camera that is resolved at runtime is offered under its own name, and as itself.
pub proof fn the_primary_camera_is_offered_as_itself()
    ensures
        primary_entry().name == "Primary Camera"@,
        primary_entry().target == "primary"@,
        primary_entry().node is None,
{
}

} // verus!
