//! Emitter profiles: from what a profile file says to the table of known devices, and that table as
//! source text.

use crate::led::{IrControl, IrDevice, IrQuery};
use crate::text::CharClass;
use crate::{led, text};
use vstd::prelude::*;

verus! {

/// What a profile file holds.
pub struct ProfileFile {
    pub device: Device,
    pub emitter: Emitter,
}

pub struct Device {
    pub vendor_id: u16,
    pub product_id: u16,
    pub name: String,
    pub source: Option<String>,
    pub requires_ir_yuy2: bool,
}

/// The controls of an emitter: one control with the bytes for on and off, or two lists of steps.
pub struct Emitter {
    pub unit: Option<u8>,
    pub selector: Option<u8>,
    pub control_bytes: Option<Vec<u8>>,
    pub off_control_bytes: Option<Vec<u8>>,
    pub on: Option<Vec<Step>>,
    pub off: Option<Vec<Step>>,
}

pub struct Step {
    pub unit: u8,
    pub selector: u8,
    pub query: String,
    pub control_bytes: Option<Vec<u8>>,
    pub payload: Option<Vec<u8>>,
    pub size: Option<usize>,
}

/// A profile that was checked: a known device, and the name that its constants begin with.
pub struct ProcessedProfile {
    pub ident: String,
    pub device: IrDevice,
}

/// The vendor and product that a profile's file name gives.
pub open spec fn file_ids(stem: Seq<char>) -> Option<(u16, u16)> {
    match text::split_first(stem, CharClass::Is('-')) {
        None => None,
        Some((vid, pid)) => if vid.len() != 4 || pid.len() != 4 {
            None
        } else {
            match (text::parsed(vid, 16, 0xffff), text::parsed(pid, 16, 0xffff)) {
                (Some(vid), Some(pid)) => Some((vid as u16, pid as u16)),
                _ => None,
            }
        },
    }
}

pub fn parse_filename_ids(stem: &str) -> (r: Option<(u16, u16)>)
    ensures
        r == file_ids(stem@),
{
    let stem = text::chars(stem);
    match text::split_once(stem.as_slice(), CharClass::Is('-')) {
        None => None,
        Some((vid, pid)) => {
            if vid.len() != 4 || pid.len() != 4 {
                return None;
            }
            match (text::parse_number(vid, 16, 0xffff), text::parse_number(pid, 16, 0xffff)) {
                (Some(vid), Some(pid)) => Some((vid as u16, pid as u16)),
                _ => None,
            }
        },
    }
}

pub open spec fn zeros(n: nat) -> Seq<u8> {
    Seq::new(n, |i: int| 0u8)
}

/// The bytes of a step: those that it gives, or as many zeros as it says.
pub open spec fn step_bytes(step: Step) -> Option<Seq<u8>> {
    match step.control_bytes {
        Some(bytes) => Some(bytes@),
        None => match step.payload {
            Some(bytes) => Some(bytes@),
            None => match step.size {
                Some(size) => Some(zeros(size as nat)),
                None => None,
            },
        },
    }
}

pub open spec fn step_query(query: Seq<char>) -> IrQuery {
    if text::lowered(query) == "get_cur"@ || text::lowered(query) == "get"@ {
        IrQuery::GetCur
    } else {
        IrQuery::SetCur
    }
}

pub open spec fn control_of(step: Step) -> led::Control {
    led::Control {
        unit: step.unit,
        selector: step.selector,
        query: step_query(step.query@),
        payload: step_bytes(step)->0,
    }
}

pub open spec fn complete(steps: Seq<Step>) -> bool {
    forall|i: int| 0 <= i < steps.len() ==> step_bytes(#[trigger] steps[i]) is Some
}

pub open spec fn controls_of(steps: Seq<Step>) -> Seq<led::Control> {
    Seq::new(steps.len(), |i: int| control_of(steps[i]))
}

fn copy_bytes(bytes: &Vec<u8>) -> (r: Vec<u8>)
    ensures
        r@ == bytes@,
{
    let mut r: Vec<u8> = Vec::new();
    r.extend_from_slice(bytes.as_slice());
    proof {
        assert(r@ =~= bytes@);
    }
    r
}

fn zero_bytes(n: usize) -> (r: Vec<u8>)
    ensures
        r@ == zeros(n as nat),
{
    let mut r: Vec<u8> = Vec::new();
    for i in 0..n
        invariant
            r@ == zeros(i as nat),
    {
        r.push(0);
        proof {
            assert(r@ =~= zeros((i + 1) as nat));
        }
    }
    r
}

fn bytes_of_step(step: &Step) -> (r: Option<Vec<u8>>)
    ensures
        match r {
            Some(bytes) => step_bytes(*step) == Some(bytes@),
            None => step_bytes(*step) is None,
        },
{
    if let Some(bytes) = &step.control_bytes {
        return Some(copy_bytes(bytes));
    }
    if let Some(bytes) = &step.payload {
        return Some(copy_bytes(bytes));
    }
    match step.size {
        Some(size) => Some(zero_bytes(size)),
        None => None,
    }
}

pub open spec fn empty_step(path: Seq<char>) -> Seq<char> {
    path + ": step missing control_bytes, payload, or size"@
}

/// A step as a control, or what is missing in it.
pub fn process_step(step: &Step, path: &str) -> (r: Result<IrControl, String>)
    ensures
        match r {
            Ok(control) => step_bytes(*step) is Some && control@ == control_of(*step),
            Err(error) => step_bytes(*step) is None && error@ == empty_step(path@),
        },
{
    match bytes_of_step(step) {
        None => Err(text::cat2(path, ": step missing control_bytes, payload, or size")),
        Some(payload) => {
            let lowered = text::lower(text::chars(step.query.as_str()).as_slice());
            let query = if text::is_text(lowered.as_slice(), "get_cur") || text::is_text(
                lowered.as_slice(),
                "get",
            ) {
                IrQuery::GetCur
            } else {
                IrQuery::SetCur
            };
            Ok(IrControl { unit: step.unit, selector: step.selector, query, payload })
        },
    }
}

fn process_steps(steps: &Vec<Step>, path: &str) -> (r: Result<Vec<IrControl>, String>)
    ensures
        match r {
            Ok(controls) => complete(steps@) && led::static_views(controls@) == controls_of(
                steps@,
            ),
            Err(error) => !complete(steps@) && error@ == empty_step(path@),
        },
{
    let mut controls: Vec<IrControl> = Vec::new();
    for i in 0..steps.len()
        invariant
            controls@.len() == i,
            forall|j: int|
                0 <= j < i ==> step_bytes(#[trigger] steps@[j]) is Some && controls@[j]@
                    == control_of(steps@[j]),
    {
        match process_step(&steps[i], path) {
            Ok(control) => {
                controls.push(control);
            },
            Err(error) => {
                proof {
                    assert(step_bytes(steps@[i as int]) is None);
                }
                return Err(error);
            },
        }
    }
    proof {
        assert(led::static_views(controls@) =~= controls_of(steps@));
    }
    Ok(controls)
}

/// The controls of an emitter, for on and for off.
pub open spec fn emitter_controls(emitter: Emitter, path: Seq<char>) -> Result<
    (Seq<led::Control>, Seq<led::Control>),
    Seq<char>,
> {
    match emitter.on {
        Some(on) => if !complete(on@) {
            Err(empty_step(path))
        } else {
            match emitter.off {
                None => Err(path + " uses emitter.on but has no emitter.off"@),
                Some(off) => if !complete(off@) {
                    Err(empty_step(path))
                } else {
                    Ok((controls_of(on@), controls_of(off@)))
                },
            }
        },
        None => if emitter.unit is None {
            Err(path + " missing emitter.unit"@)
        } else if emitter.selector is None {
            Err(path + " missing emitter.selector"@)
        } else if emitter.control_bytes is None {
            Err(path + " missing emitter.control_bytes"@)
        } else {
            let on = emitter.control_bytes->0@;
            let off = match emitter.off_control_bytes {
                Some(bytes) => bytes@,
                None => zeros(on.len()),
            };
            Ok(
                (
                    seq![single(emitter.unit->0, emitter.selector->0, on)],
                    seq![single(emitter.unit->0, emitter.selector->0, off)],
                ),
            )
        },
    }
}

pub open spec fn single(unit: u8, selector: u8, payload: Seq<u8>) -> led::Control {
    led::Control { unit, selector, query: IrQuery::SetCur, payload }
}

fn one_control(unit: u8, selector: u8, payload: Vec<u8>) -> (r: Vec<IrControl>)
    ensures
        led::static_views(r@) == seq![single(unit, selector, payload@)],
{
    let mut r: Vec<IrControl> = Vec::new();
    r.push(IrControl { unit, selector, query: IrQuery::SetCur, payload });
    proof {
        assert(led::static_views(r@) =~= seq![single(unit, selector, payload@)]);
    }
    r
}

fn process_emitter(emitter: &Emitter, path: &str) -> (r: Result<
    (Vec<IrControl>, Vec<IrControl>),
    String,
>)
    ensures
        match r {
            Ok((on, off)) => emitter_controls(*emitter, path@) == Ok::<_, Seq<char>>(
                (led::static_views(on@), led::static_views(off@)),
            ),
            Err(error) => emitter_controls(*emitter, path@) == Err::<
                (Seq<led::Control>, Seq<led::Control>),
                _,
            >(error@),
        },
{
    if let Some(on) = &emitter.on {
        let on = match process_steps(on, path) {
            Ok(on) => on,
            Err(error) => return Err(error),
        };
        let off = match &emitter.off {
            None => return Err(text::cat2(path, " uses emitter.on but has no emitter.off")),
            Some(off) => off,
        };
        return match process_steps(off, path) {
            Ok(off) => Ok((on, off)),
            Err(error) => Err(error),
        };
    }
    let unit: u8 = match emitter.unit {
        None => return Err(text::cat2(path, " missing emitter.unit")),
        Some(unit) => unit,
    };
    let selector: u8 = match emitter.selector {
        None => return Err(text::cat2(path, " missing emitter.selector")),
        Some(selector) => selector,
    };
    let on = match &emitter.control_bytes {
        None => return Err(text::cat2(path, " missing emitter.control_bytes")),
        Some(bytes) => copy_bytes(bytes),
    };
    let off = match &emitter.off_control_bytes {
        Some(bytes) => copy_bytes(bytes),
        None => zero_bytes(on.len()),
    };
    Ok((one_control(unit, selector, on), one_control(unit, selector, off)))
}

pub open spec fn ident_of(stem: Seq<char>) -> Seq<char> {
    "DEVICE_"@ + text::uppered(text::replaced(stem, '-', '_'))
}

pub open spec fn shown_ids(vid: u16, pid: u16) -> Seq<char> {
    text::padded(vid as nat, 16, 4) + ":"@ + text::padded(pid as nat, 16, 4)
}

fn ids_text(vid: u16, pid: u16) -> (r: String)
    ensures
        r@ == shown_ids(vid, pid),
{
    let vid = text::hex_text(vid as u64, 4);
    let pid = text::hex_text(pid as u64, 4);
    text::cat3(vid.as_str(), ":", pid.as_str())
}

pub open spec fn misnamed(path: Seq<char>) -> Seq<char> {
    "profile file must be named vvvv-pppp.toml: "@ + path
}

/// What is wrong with a profile, the first that applies.
pub open spec fn profile_error(stem: Seq<char>, path: Seq<char>, file: ProfileFile) -> Option<
    Seq<char>,
> {
    match file_ids(stem) {
        None => Some(misnamed(path)),
        Some((vid, pid)) => if file.device.vendor_id != vid || file.device.product_id != pid {
            Some(
                path + " has device "@ + shown_ids(
                    file.device.vendor_id,
                    file.device.product_id,
                ) + ", but file name is "@ + shown_ids(vid, pid),
            )
        } else {
            match emitter_controls(file.emitter, path) {
                Ok(_) => None,
                Err(error) => Some(error),
            }
        },
    }
}

/// The ids that a profile's file is named after.
pub fn named_ids(stem: &str, path: &str) -> (r: Result<(u16, u16), String>)
    ensures
        match r {
            Ok(ids) => file_ids(stem@) == Some(ids),
            Err(error) => file_ids(stem@) is None && error@ == misnamed(path@),
        },
{
    match parse_filename_ids(stem) {
        Some(ids) => Ok(ids),
        None => Err(text::cat2("profile file must be named vvvv-pppp.toml: ", path)),
    }
}

/// A profile from its file's name and contents.
pub fn parse_profile(stem: &str, path: &str, file: ProfileFile) -> (r: Result<
    ProcessedProfile,
    String,
>)
    ensures
        match r {
            Ok(profile) => {
                &&& profile_error(stem@, path@, file) is None
                &&& profile.ident@ == ident_of(stem@)
                &&& profile.device.vid == file.device.vendor_id
                &&& profile.device.pid == file.device.product_id
                &&& profile.device.name@ == file.device.name@
                &&& profile.device.source@ == (match file.device.source {
                    Some(source) => source@,
                    None => "gaze-core profile"@,
                })
                &&& profile.device.requires_ir_yuy2 == file.device.requires_ir_yuy2
                &&& emitter_controls(file.emitter, path@) == Ok::<_, Seq<char>>(
                    (
                        led::static_views(profile.device.on_sequence@),
                        led::static_views(profile.device.off_sequence@),
                    ),
                )
            },
            Err(error) => profile_error(stem@, path@, file) == Some(error@),
        },
{
    let (vid, pid) = match named_ids(stem, path) {
        Err(error) => return Err(error),
        Ok(ids) => ids,
    };
    if file.device.vendor_id != vid || file.device.product_id != pid {
        let device = ids_text(file.device.vendor_id, file.device.product_id);
        let named = ids_text(vid, pid);
        return Err(
            text::cat5(
                path,
                " has device ",
                device.as_str(),
                ", but file name is ",
                named.as_str(),
            ),
        );
    }
    let (on_sequence, off_sequence) = match process_emitter(&file.emitter, path) {
        Ok(controls) => controls,
        Err(error) => return Err(error),
    };
    let ident = text::replace(text::chars(stem).as_slice(), '-', '_');
    let ident = text::string(text::upper(ident.as_slice()).as_slice());
    Ok(
        ProcessedProfile {
            ident: text::cat2("DEVICE_", ident.as_str()),
            device: IrDevice {
                vid,
                pid,
                name: file.device.name,
                on_sequence,
                off_sequence,
                source: match file.device.source {
                    Some(source) => source,
                    None => "gaze-core profile".to_owned(),
                },
                requires_ir_yuy2: file.device.requires_ir_yuy2,
            },
        },
    )
}

/// An earlier profile is for the same device.
pub open spec fn repeats(profiles: Seq<ProcessedProfile>, i: int) -> bool {
    exists|j: int|
        0 <= j < i && (#[trigger] profiles[j]).device.vid == profiles[i].device.vid
            && profiles[j].device.pid == profiles[i].device.pid
}

fn is_repeated(profiles: &Vec<ProcessedProfile>, i: usize) -> (r: bool)
    requires
        i < profiles@.len(),
    ensures
        r == repeats(profiles@, i as int),
{
    for j in 0..i
        invariant
            i < profiles@.len(),
            forall|k: int|
                0 <= k < j ==> !((#[trigger] profiles@[k]).device.vid
                    == profiles@[i as int].device.vid && profiles@[k].device.pid
                    == profiles@[i as int].device.pid),
    {
        if profiles[j].device.vid == profiles[i].device.vid && profiles[j].device.pid
            == profiles[i].device.pid {
            proof {
                assert(profiles@[j as int].device.vid == profiles@[i as int].device.vid);
            }
            return true;
        }
    }
    false
}

/// Every device has at most one profile.
pub fn check_profiles(profiles: &Vec<ProcessedProfile>) -> (r: Result<(), String>)
    ensures
        match r {
            Ok(_) => forall|i: int| 0 <= i < profiles@.len() ==> !#[trigger] repeats(profiles@, i),
            Err(error) => exists|i: int|
                {
                    &&& 0 <= i < profiles@.len()
                    &&& #[trigger] repeats(profiles@, i)
                    &&& forall|j: int| 0 <= j < i ==> !#[trigger] repeats(profiles@, j)
                    &&& error@ == "duplicate IR profile for "@ + shown_ids(
                        profiles@[i].device.vid,
                        profiles@[i].device.pid,
                    )
                },
        },
{
    for i in 0..profiles.len()
        invariant
            forall|j: int| 0 <= j < i ==> !#[trigger] repeats(profiles@, j),
    {
        if is_repeated(profiles, i) {
            let ids = ids_text(profiles[i].device.vid, profiles[i].device.pid);
            return Err(text::cat2("duplicate IR profile for ", ids.as_str()));
        }
    }
    Ok(())
}

pub open spec fn bytes_shown(bytes: Seq<u8>) -> Seq<char>
    decreases bytes.len(),
{
    if bytes.len() == 0 {
        seq![]
    } else if bytes.len() == 1 {
        "0x"@ + text::padded(bytes[0] as nat, 16, 2)
    } else {
        bytes_shown(bytes.drop_last()) + ", 0x"@ + text::padded(bytes.last() as nat, 16, 2)
    }
}

/// The constants that hold the bytes of the first controls.
pub open spec fn byte_constants(prefix: Seq<char>, controls: Seq<led::Control>, n: int) -> Seq<char>
    decreases n,
{
    if n <= 0 {
        seq![]
    } else {
        byte_constants(prefix, controls, n - 1) + ("const "@ + prefix + "_"@ + text::decimal(
            (n - 1) as nat,
        ) + "_BYTES: &[u8] = &["@ + bytes_shown(controls[n - 1].payload) + "];\n"@)
    }
}

pub open spec fn control_shown(prefix: Seq<char>, control: led::Control, index: nat) -> Seq<char> {
    "    IrControl { unit: 0x"@ + text::padded(control.unit as nat, 16, 2) + ", selector: 0x"@
        + text::padded(control.selector as nat, 16, 2) + ", query: "@ + (match control.query {
        IrQuery::GetCur => "IrQuery::GetCur"@,
        IrQuery::SetCur => "IrQuery::SetCur"@,
    }) + ", payload: "@ + prefix + "_"@ + text::decimal(index) + "_BYTES },\n"@
}

pub open spec fn controls_shown(prefix: Seq<char>, controls: Seq<led::Control>, n: int) -> Seq<char>
    decreases n,
{
    if n <= 0 {
        seq![]
    } else {
        controls_shown(prefix, controls, n - 1) + control_shown(
            prefix,
            controls[n - 1],
            (n - 1) as nat,
        )
    }
}

/// A sequence of controls as constants.
pub open spec fn sequence_shown(prefix: Seq<char>, controls: Seq<led::Control>) -> Seq<char> {
    byte_constants(prefix, controls, controls.len() as int) + ("const "@ + prefix
        + ": &[IrControl] = &[\n"@) + controls_shown(prefix, controls, controls.len() as int)
        + "];\n\n"@
}

fn bytes_text(bytes: &Vec<u8>) -> (r: String)
    ensures
        r@ == bytes_shown(bytes@),
{
    let mut r = String::new();
    proof {
        assert(r@ =~= bytes_shown(bytes@.take(0)));
    }
    for i in 0..bytes.len()
        invariant
            r@ == bytes_shown(bytes@.take(i as int)),
    {
        proof {
            text::lemma_take_push(bytes@, i as int);
        }
        let byte = text::hex_text(bytes[i] as u64, 2);
        if i == 0 {
            r = text::cat2("0x", byte.as_str());
        } else {
            r.append(", 0x");
            r.append(byte.as_str());
        }
    }
    proof {
        assert(bytes@.take(bytes@.len() as int) =~= bytes@);
    }
    r
}

fn control_text(prefix: &str, control: &IrControl, index: usize) -> (r: String)
    ensures
        r@ == control_shown(prefix@, control@, index as nat),
{
    let unit = text::hex_text(control.unit as u64, 2);
    let selector = text::hex_text(control.selector as u64, 2);
    let query = match control.query {
        IrQuery::GetCur => "IrQuery::GetCur",
        IrQuery::SetCur => "IrQuery::SetCur",
    };
    let index = text::decimal_text(index as u64);
    let mut r = text::cat5(
        "    IrControl { unit: 0x",
        unit.as_str(),
        ", selector: 0x",
        selector.as_str(),
        ", query: ",
    );
    r.append(query);
    r.append(", payload: ");
    r.append(prefix);
    r.append("_");
    r.append(index.as_str());
    r.append("_BYTES },\n");
    r
}

/// Appends a sequence of controls as constants whose names begin with the prefix.
pub fn render_steps(out: &mut String, prefix: &str, controls: &Vec<IrControl>)
    ensures
        final(out)@ == old(out)@ + sequence_shown(prefix@, led::static_views(controls@)),
{
    let ghost all = led::static_views(controls@);
    let ghost start = out@;
    proof {
        assert(out@ =~= start + byte_constants(prefix@, all, 0));
    }
    for i in 0..controls.len()
        invariant
            all == led::static_views(controls@),
            out@ == start + byte_constants(prefix@, all, i as int),
    {
        let index = text::decimal_text(i as u64);
        let bytes = bytes_text(&controls[i].payload);
        let mut line = text::cat5("const ", prefix, "_", index.as_str(), "_BYTES: &[u8] = &[");
        line.append(bytes.as_str());
        line.append("];\n");
        out.append(line.as_str());
        proof {
            text::lemma_append(start, byte_constants(prefix@, all, i as int), line@);
        }
    }
    let head = text::cat3("const ", prefix, ": &[IrControl] = &[\n");
    out.append(head.as_str());
    let ghost middle = out@;
    proof {
        assert(out@ =~= middle + controls_shown(prefix@, all, 0));
    }
    for i in 0..controls.len()
        invariant
            all == led::static_views(controls@),
            out@ == middle + controls_shown(prefix@, all, i as int),
    {
        let line = control_text(prefix, &controls[i], i);
        proof {
            assert(all[i as int] == controls@[i as int]@);
        }
        out.append(line.as_str());
        proof {
            text::lemma_append(middle, controls_shown(prefix@, all, i as int), line@);
        }
    }
    out.append("];\n\n");
    proof {
        assert(out@ =~= start + sequence_shown(prefix@, all));
    }
}

pub open spec fn sequences_shown(profiles: Seq<ProcessedProfile>, n: int) -> Seq<char>
    decreases n,
{
    if n <= 0 {
        seq![]
    } else {
        let profile = profiles[n - 1];
        sequences_shown(profiles, n - 1) + sequence_shown(
            profile.ident@ + "_ON"@,
            led::static_views(profile.device.on_sequence@),
        ) + sequence_shown(
            profile.ident@ + "_OFF"@,
            led::static_views(profile.device.off_sequence@),
        )
    }
}

pub open spec fn device_shown(profile: ProcessedProfile) -> Seq<char> {
    "    IrDevice {\n        vid: 0x"@ + text::padded(profile.device.vid as nat, 16, 4)
        + ",\n        pid: 0x"@ + text::padded(profile.device.pid as nat, 16, 4)
        + ",\n        name: "@ + text::quoted(profile.device.name@)
        + ",\n        on_sequence: "@ + profile.ident@ + "_ON,\n        off_sequence: "@
        + profile.ident@ + "_OFF,\n        source: "@ + text::quoted(profile.device.source@)
        + ",\n        requires_ir_yuy2: "@ + (if profile.device.requires_ir_yuy2 {
        "true"@
    } else {
        "false"@
    }) + ",\n    },\n"@
}

pub open spec fn devices_shown(profiles: Seq<ProcessedProfile>, n: int) -> Seq<char>
    decreases n,
{
    if n <= 0 {
        seq![]
    } else {
        devices_shown(profiles, n - 1) + device_shown(profiles[n - 1])
    }
}

/// The table of known devices as source text.
pub open spec fn table_shown(profiles: Seq<ProcessedProfile>) -> Seq<char> {
    "// @generated by gaze-core/build.rs\n// Do not edit directly; add ir-profiles/*.toml instead.\n\n"@
        + sequences_shown(profiles, profiles.len() as int)
        + "pub const IR_DEVICES: &[IrDevice] = &[\n"@ + devices_shown(
        profiles,
        profiles.len() as int,
    ) + "];\n\n"@
}

fn device_text(profile: &ProcessedProfile) -> (r: String)
    ensures
        r@ == device_shown(*profile),
{
    let vid = text::hex_text(profile.device.vid as u64, 4);
    let pid = text::hex_text(profile.device.pid as u64, 4);
    let name = text::quote(profile.device.name.as_str());
    let source = text::quote(profile.device.source.as_str());
    let mut r = text::cat5(
        "    IrDevice {\n        vid: 0x",
        vid.as_str(),
        ",\n        pid: 0x",
        pid.as_str(),
        ",\n        name: ",
    );
    r.append(name.as_str());
    r.append(",\n        on_sequence: ");
    r.append(profile.ident.as_str());
    r.append("_ON,\n        off_sequence: ");
    r.append(profile.ident.as_str());
    r.append("_OFF,\n        source: ");
    r.append(source.as_str());
    r.append(",\n        requires_ir_yuy2: ");
    r.append(
        if profile.device.requires_ir_yuy2 {
            "true"
        } else {
            "false"
        },
    );
    r.append(",\n    },\n");
    r
}

pub fn render(profiles: &Vec<ProcessedProfile>) -> (r: String)
    ensures
        r@ == table_shown(profiles@),
{
    let mut out =
        "// @generated by gaze-core/build.rs\n// Do not edit directly; add ir-profiles/*.toml instead.\n\n".to_owned();
    let ghost head = out@;
    proof {
        assert(out@ =~= head + sequences_shown(profiles@, 0));
    }
    for i in 0..profiles.len()
        invariant
            out@ == head + sequences_shown(profiles@, i as int),
    {
        let on = text::cat2(profiles[i].ident.as_str(), "_ON");
        render_steps(&mut out, on.as_str(), &profiles[i].device.on_sequence);
        let off = text::cat2(profiles[i].ident.as_str(), "_OFF");
        render_steps(&mut out, off.as_str(), &profiles[i].device.off_sequence);
        proof {
            let shown = sequences_shown(profiles@, i as int);
            let on_shown = sequence_shown(
                on@,
                led::static_views(profiles@[i as int].device.on_sequence@),
            );
            let off_shown = sequence_shown(
                off@,
                led::static_views(profiles@[i as int].device.off_sequence@),
            );
            text::lemma_append(head, shown, on_shown);
            text::lemma_append(head, shown + on_shown, off_shown);
        }
    }
    out.append("pub const IR_DEVICES: &[IrDevice] = &[\n");
    let ghost middle = out@;
    proof {
        assert(out@ =~= middle + devices_shown(profiles@, 0));
    }
    for i in 0..profiles.len()
        invariant
            out@ == middle + devices_shown(profiles@, i as int),
    {
        let device = device_text(&profiles[i]);
        out.append(device.as_str());
        proof {
            text::lemma_append(middle, devices_shown(profiles@, i as int), device@);
        }
    }
    out.append("];\n\n");
    proof {
        assert(out@ =~= table_shown(profiles@));
    }
    out
}

proof fn lemma_four_digits(n: u16)
    ensures
        text::padded(n as nat, 16, 4).len() == 4,
{
    reveal_with_fuel(text::digits, 5);
    assert(n as nat / 16 / 16 / 16 < 16);
    text::padding_fills_with_zeros(n as nat, 16, 4);
}

/// A profile's file is named by its ids, four digits each with a dash between, and by nothing else.
pub proof fn file_names_give_the_ids(vid: u16, pid: u16, stem: Seq<char>)
    ensures
        file_ids(text::padded(vid as nat, 16, 4).push('-') + text::padded(pid as nat, 16, 4))
            == Some((vid, pid)),
        file_ids(stem) is Some ==> stem.len() == 9 && stem[4] == '-',
{
    let v = text::padded(vid as nat, 16, 4);
    let p = text::padded(pid as nat, 16, 4);
    lemma_four_digits(vid);
    lemma_four_digits(pid);
    text::zeros_in_front_do_not_count(vid as nat, 16, 4, 0xffff);
    text::zeros_in_front_do_not_count(pid as nat, 16, 4, 0xffff);
    text::digits_hold_no_separator(v, 16);
    text::text_is_cut_at_the_first_of_a_class(v, '-', p, CharClass::Is('-'));
    text::first_in_is_first(stem, CharClass::Is('-'));
}

/// A step writes its own bytes where it gives them, else its payload, else as many zeros as its size;
/// a step with none of them is incomplete.
pub proof fn a_step_writes_what_it_gives_first(step: Step)
    ensures
        step.control_bytes matches Some(bytes) ==> step_bytes(step) == Some(bytes@),
        step.control_bytes is None ==> (step.payload matches Some(bytes) ==> step_bytes(step)
            == Some(bytes@)),
        step.control_bytes is None && step.payload is None ==> (step.size matches Some(size)
            ==> step_bytes(step) is Some && (step_bytes(step)->0).len() == size && forall|i: int|
            0 <= i < size ==> #[trigger] (step_bytes(step)->0)[i] == 0),
        step_bytes(step) is None <==> step.control_bytes is None && step.payload is None
            && step.size is None,
{
}

/// Only two words, in any case, ask for a value; everything else sets one.
pub proof fn two_words_ask_for_a_value(query: Seq<char>)
    ensures
        step_query(query) == IrQuery::GetCur <==> text::lowered(query) == "get_cur"@
            || text::lowered(query) == "get"@,
        step_query(query) == IrQuery::SetCur <==> text::lowered(query) != "get_cur"@
            && text::lowered(query) != "get"@,
{
}

/// One incomplete step anywhere spoils a list; the controls of a list are those of its steps, one by
/// one.
pub proof fn steps_become_controls_one_by_one(steps: Seq<Step>, i: int)
    requires
        0 <= i < steps.len(),
    ensures
        step_bytes(steps[i]) is None ==> !complete(steps),
        controls_of(steps).len() == steps.len(),
        controls_of(steps)[i].unit == steps[i].unit,
        controls_of(steps)[i].selector == steps[i].selector,
        controls_of(steps)[i].query == step_query(steps[i].query@),
        step_bytes(steps[i]) matches Some(bytes) ==> controls_of(steps)[i].payload == bytes,
{
}

/// An emitter of steps needs both lists complete. Where it is of one control, it needs the control and
/// its bytes, and is turned off with the bytes for that, or with as many zeros.
pub proof fn an_emitter_is_steps_or_one_control(emitter: Emitter, path: Seq<char>)
    ensures
        ({
            let result = emitter_controls(emitter, path);
            let by_steps = emitter.on matches Some(on) && emitter.off matches Some(off) && complete(
                on@,
            ) && complete(off@);
            let by_control = emitter.on is None && emitter.unit is Some && emitter.selector is Some
                && emitter.control_bytes is Some;
            &&& result is Ok <==> by_steps || by_control
            &&& by_steps ==> result == Ok::<(Seq<led::Control>, Seq<led::Control>), Seq<char>>(
                (controls_of((emitter.on->0)@), controls_of((emitter.off->0)@)),
            )
            &&& by_control ==> (result matches Ok((on, off)) && on.len() == 1 && off.len() == 1
                && on[0].payload == (emitter.control_bytes->0)@ && on[0].unit == emitter.unit->0
                && off[0].unit == emitter.unit->0 && on[0].selector == emitter.selector->0
                && off[0].selector == emitter.selector->0 && on[0].query == IrQuery::SetCur
                && off[0].query == IrQuery::SetCur)
            &&& by_control ==> (emitter.off_control_bytes matches Some(bytes) ==> (
            result matches Ok((on, off)) && off[0].payload == bytes@))
            &&& by_control && emitter.off_control_bytes is None ==> (result matches Ok((on, off))
                && off[0].payload == zeros((emitter.control_bytes->0)@.len()))
        }),
{
}

/// A profile is accepted exactly when its file name gives ids, they are its device's, and its emitter
/// is complete.
pub proof fn a_profile_is_accepted_only_under_its_own_name(
    stem: Seq<char>,
    path: Seq<char>,
    file: ProfileFile,
)
    ensures
        profile_error(stem, path, file) is None <==> file_ids(stem) == Some(
            (file.device.vendor_id, file.device.product_id),
        ) && emitter_controls(file.emitter, path) is Ok,
        file_ids(stem) is None ==> profile_error(stem, path, file) == Some(
            "profile file must be named vvvv-pppp.toml: "@ + path,
        ),
        file_ids(stem) == Some((file.device.vendor_id, file.device.product_id)) ==> (
        emitter_controls(file.emitter, path) matches Err(error) ==> profile_error(stem, path, file)
            == Some(error)),
{
}

/// A profile repeats another exactly when some earlier one has both its ids.
pub proof fn a_profile_repeats_an_earlier_one(
    profiles: Seq<ProcessedProfile>,
    i: int,
    j: int,
)
    requires
        0 <= j < i < profiles.len(),
    ensures
        profiles[j].device.vid == profiles[i].device.vid && profiles[j].device.pid
            == profiles[i].device.pid ==> repeats(profiles, i),
        !repeats(profiles, i) ==> profiles[j].device.vid != profiles[i].device.vid
            || profiles[j].device.pid != profiles[i].device.pid,
        !repeats(profiles, 0),
{
}

/// Bytes are shown one after another, two digits each, with commas between.
pub proof fn bytes_are_shown_one_by_one(bytes: Seq<u8>, byte: u8)
    ensures
        bytes_shown(seq![]) == Seq::<char>::empty(),
        bytes_shown(seq![byte]) == "0x"@ + text::padded(byte as nat, 16, 2),
        bytes.len() > 0 ==> bytes_shown(bytes.push(byte)) == bytes_shown(bytes) + ", "@
            + bytes_shown(seq![byte]),
{
    reveal_strlit("0x");
    reveal_strlit(", ");
    reveal_strlit(", 0x");
    assert(", 0x"@ =~= ", "@ + "0x"@);
    assert(bytes.push(byte).drop_last() =~= bytes);
    if bytes.len() > 0 {
        assert(bytes_shown(bytes.push(byte)) =~= bytes_shown(bytes) + ", "@ + bytes_shown(
            seq![byte],
        ));
    }
}

proof fn lemma_within(s: Seq<char>, front: Seq<char>, middle: Seq<char>, back: Seq<char>, needle: Seq<char>)
    requires
        s == front + middle + back,
        text::mentions(middle, needle),
    ensures
        text::mentions(s, needle),
{
    let i = choose|i: int| text::occurs_at(middle, needle, i);
    let at = front.len() + i;
    assert(s.subrange(at, at + needle.len()) =~= middle.subrange(i, i + needle.len()));
    assert(text::occurs_at(s, needle, at));
}

proof fn lemma_itself(s: Seq<char>)
    ensures
        text::mentions(s, s),
{
    assert(s.subrange(0, s.len() as int) =~= s);
    assert(text::occurs_at(s, s, 0));
}

proof fn lemma_controls_shown(prefix: Seq<char>, controls: Seq<led::Control>, n: int, i: int)
    requires
        0 <= i < n <= controls.len(),
    ensures
        text::mentions(
            controls_shown(prefix, controls, n),
            control_shown(prefix, controls[i], i as nat),
        ),
        text::mentions(byte_constants(prefix, controls, n), bytes_shown(controls[i].payload)),
    decreases n,
{
    let nothing = Seq::<char>::empty();
    let shown = control_shown(prefix, controls[n - 1], (n - 1) as nat);
    let before = controls_shown(prefix, controls, n - 1);
    let constants = byte_constants(prefix, controls, n - 1);
    let bytes = bytes_shown(controls[n - 1].payload);
    let lead = "const "@ + prefix + "_"@ + text::decimal((n - 1) as nat) + "_BYTES: &[u8] = &["@;
    if i == n - 1 {
        lemma_itself(shown);
        lemma_itself(bytes);
        assert(controls_shown(prefix, controls, n) =~= before + shown + nothing);
        lemma_within(controls_shown(prefix, controls, n), before, shown, nothing, shown);
        assert(byte_constants(prefix, controls, n) =~= (constants + lead) + bytes + "];\n"@);
        lemma_within(
            byte_constants(prefix, controls, n),
            constants + lead,
            bytes,
            "];\n"@,
            bytes,
        );
    } else {
        lemma_controls_shown(prefix, controls, n - 1, i);
        assert(controls_shown(prefix, controls, n) =~= nothing + before + shown);
        lemma_within(
            controls_shown(prefix, controls, n),
            nothing,
            before,
            shown,
            control_shown(prefix, controls[i], i as nat),
        );
        let tail = lead + bytes + "];\n"@;
        assert(byte_constants(prefix, controls, n) =~= nothing + constants + tail);
        lemma_within(
            byte_constants(prefix, controls, n),
            nothing,
            constants,
            tail,
            bytes_shown(controls[i].payload),
        );
    }
}

/// Every control of a sequence is shown, with its place and its bytes.
pub proof fn every_control_is_shown(prefix: Seq<char>, controls: Seq<led::Control>, i: int)
    requires
        0 <= i < controls.len(),
    ensures
        text::mentions(
            sequence_shown(prefix, controls),
            control_shown(prefix, controls[i], i as nat),
        ),
        text::mentions(sequence_shown(prefix, controls), bytes_shown(controls[i].payload)),
{
    let n = controls.len() as int;
    lemma_controls_shown(prefix, controls, n, i);
    let all = sequence_shown(prefix, controls);
    let nothing = Seq::<char>::empty();
    let constants = byte_constants(prefix, controls, n);
    let lead = "const "@ + prefix + ": &[IrControl] = &[\n"@;
    let shown = controls_shown(prefix, controls, n);
    assert(all =~= (constants + lead) + shown + "];\n\n"@);
    lemma_within(
        all,
        constants + lead,
        shown,
        "];\n\n"@,
        control_shown(prefix, controls[i], i as nat),
    );
    assert(all =~= nothing + constants + (lead + shown + "];\n\n"@));
    lemma_within(
        all,
        nothing,
        constants,
        lead + shown + "];\n\n"@,
        bytes_shown(controls[i].payload),
    );
}

proof fn lemma_profiles_shown(profiles: Seq<ProcessedProfile>, n: int, i: int)
    requires
        0 <= i < n <= profiles.len(),
    ensures
        text::mentions(devices_shown(profiles, n), device_shown(profiles[i])),
        text::mentions(
            sequences_shown(profiles, n),
            sequence_shown(
                profiles[i].ident@ + "_ON"@,
                led::static_views(profiles[i].device.on_sequence@),
            ),
        ),
        text::mentions(
            sequences_shown(profiles, n),
            sequence_shown(
                profiles[i].ident@ + "_OFF"@,
                led::static_views(profiles[i].device.off_sequence@),
            ),
        ),
    decreases n,
{
    let nothing = Seq::<char>::empty();
    let last = profiles[n - 1];
    let device = device_shown(last);
    let on = sequence_shown(last.ident@ + "_ON"@, led::static_views(last.device.on_sequence@));
    let off = sequence_shown(last.ident@ + "_OFF"@, led::static_views(last.device.off_sequence@));
    let devices = devices_shown(profiles, n - 1);
    let sequences = sequences_shown(profiles, n - 1);
    assert(devices_shown(profiles, n) =~= devices + device + nothing);
    assert(devices_shown(profiles, n) =~= nothing + devices + device);
    assert(sequences_shown(profiles, n) =~= sequences + on + off);
    assert(sequences_shown(profiles, n) =~= (sequences + on) + off + nothing);
    assert(sequences_shown(profiles, n) =~= nothing + sequences + (on + off));
    if i == n - 1 {
        lemma_itself(device);
        lemma_itself(on);
        lemma_itself(off);
        lemma_within(devices_shown(profiles, n), devices, device, nothing, device);
        lemma_within(sequences_shown(profiles, n), sequences, on, off, on);
        lemma_within(sequences_shown(profiles, n), sequences + on, off, nothing, off);
    } else {
        lemma_profiles_shown(profiles, n - 1, i);
        lemma_within(
            devices_shown(profiles, n),
            nothing,
            devices,
            device,
            device_shown(profiles[i]),
        );
        lemma_within(
            sequences_shown(profiles, n),
            nothing,
            sequences,
            on + off,
            sequence_shown(
                profiles[i].ident@ + "_ON"@,
                led::static_views(profiles[i].device.on_sequence@),
            ),
        );
        lemma_within(
            sequences_shown(profiles, n),
            nothing,
            sequences,
            on + off,
            sequence_shown(
                profiles[i].ident@ + "_OFF"@,
                led::static_views(profiles[i].device.off_sequence@),
            ),
        );
    }
}

/// Every profile is in the table, with both its sequences.
pub proof fn every_profile_is_in_the_table(profiles: Seq<ProcessedProfile>, i: int)
    requires
        0 <= i < profiles.len(),
    ensures
        text::mentions(table_shown(profiles), device_shown(profiles[i])),
        text::mentions(
            table_shown(profiles),
            sequence_shown(
                profiles[i].ident@ + "_ON"@,
                led::static_views(profiles[i].device.on_sequence@),
            ),
        ),
        text::mentions(
            table_shown(profiles),
            sequence_shown(
                profiles[i].ident@ + "_OFF"@,
                led::static_views(profiles[i].device.off_sequence@),
            ),
        ),
{
    let n = profiles.len() as int;
    lemma_profiles_shown(profiles, n, i);
    let all = table_shown(profiles);
    let lead =
        "// @generated by gaze-core/build.rs\n// Do not edit directly; add ir-profiles/*.toml instead.\n\n"@;
    let middle = "pub const IR_DEVICES: &[IrDevice] = &[\n"@;
    let sequences = sequences_shown(profiles, n);
    let devices = devices_shown(profiles, n);
    assert(all =~= lead + sequences + (middle + devices + "];\n\n"@));
    assert(all =~= (lead + sequences + middle) + devices + "];\n\n"@);
    lemma_within(
        all,
        lead + sequences + middle,
        devices,
        "];\n\n"@,
        device_shown(profiles[i]),
    );
    lemma_within(
        all,
        lead,
        sequences,
        middle + devices + "];\n\n"@,
        sequence_shown(
            profiles[i].ident@ + "_ON"@,
            led::static_views(profiles[i].device.on_sequence@),
        ),
    );
    lemma_within(
        all,
        lead,
        sequences,
        middle + devices + "];\n\n"@,
        sequence_shown(
            profiles[i].ident@ + "_OFF"@,
            led::static_views(profiles[i].device.off_sequence@),
        ),
    );
}

/// A profile's constants are named by its file in upper case, with a line for each dash, and its ids
/// are shown in four digits each.
pub proof fn constants_are_named_by_the_file(stem: Seq<char>, i: int, vid: u16, pid: u16)
    requires
        0 <= i < stem.len(),
    ensures
        ident_of(stem).len() == stem.len() + 7,
        text::starts(ident_of(stem), "DEVICE_"@),
        stem[i] == '-' ==> ident_of(stem)[7 + i] == '_',
        'a' <= stem[i] <= 'z' ==> ident_of(stem)[7 + i] as int == stem[i] as int - 32,
        '0' <= stem[i] <= '9' ==> ident_of(stem)[7 + i] == stem[i],
        shown_ids(vid, pid) == text::padded(vid as nat, 16, 4).push(':') + text::padded(
            pid as nat,
            16,
            4,
        ),
{
    reveal_strlit("DEVICE_");
    reveal_strlit(":");
    assert(ident_of(stem).take(7) =~= "DEVICE_"@);
    let inner = text::replaced(stem, '-', '_');
    assert(ident_of(stem)[7 + i] == text::uppered(inner)[i]);
    assert(shown_ids(vid, pid) =~= text::padded(vid as nat, 16, 4).push(':') + text::padded(
        pid as nat,
        16,
        4,
    ));
}

} // verus!
