//! Infrared emitters: which controls switch a camera's emitter on and off.

use crate::text;
use vstd::prelude::*;

verus! {

/// `UVCIOC_CTRL_QUERY`, that is `_IOWR('u', 0x21, struct uvc_xu_control_query)`; the 0x0010 in the
/// middle is the struct's size of 16 bytes.
pub const UVC_CTRL_QUERY: u64 = 0xc010_7521;

pub const SET_CUR: u8 = 0x01;

pub const GET_CUR: u8 = 0x81;

/// Microsoft's Face Authentication extension unit, shared by most Windows Hello cameras. Byte 2 of
/// the payload is the emitter mode: 1 is off, and 2 strobes on alternate frames.
pub const FACE_AUTH_SELECTOR: u8 = 0x06;

pub const FACE_AUTH_LEN: usize = 9;

pub const FACE_AUTH_ON_ALT_FRAME: [u8; 9] = [1, 3, 2, 0, 0, 0, 0, 0, 0];

pub const FACE_AUTH_OFF_DISABLED: [u8; 9] = [1, 3, 1, 0, 0, 0, 0, 0, 0];

pub const FACE_AUTH_PROBE_MAX_UNIT: u8 = 31;

#[derive(Clone, Copy, Debug, PartialEq, Eq, Structural)]
pub enum IrQuery {
    SetCur,
    GetCur,
}

/// One query to an extension unit of a camera.
#[derive(Debug, PartialEq, Eq)]
pub struct RuntimeControl {
    pub unit: u8,
    pub selector: u8,
    pub query: IrQuery,
    pub payload: Vec<u8>,
}

pub struct Control {
    pub unit: u8,
    pub selector: u8,
    pub query: IrQuery,
    pub payload: Seq<u8>,
}

impl View for RuntimeControl {
    type V = Control;

    open spec fn view(&self) -> Control {
        Control {
            unit: self.unit,
            selector: self.selector,
            query: self.query,
            payload: self.payload@,
        }
    }
}

/// A control of a known device.
pub struct IrControl {
    pub unit: u8,
    pub selector: u8,
    pub query: IrQuery,
    pub payload: Vec<u8>,
}

impl View for IrControl {
    type V = Control;

    open spec fn view(&self) -> Control {
        Control {
            unit: self.unit,
            selector: self.selector,
            query: self.query,
            payload: self.payload@,
        }
    }
}

/// A known device: what switches its emitter on and off, and what it needs to stream infrared.
pub struct IrDevice {
    pub vid: u16,
    pub pid: u16,
    pub name: String,
    pub on_sequence: Vec<IrControl>,
    pub off_sequence: Vec<IrControl>,
    pub source: String,
    pub requires_ir_yuy2: bool,
}

pub open spec fn runtime_views(controls: Seq<RuntimeControl>) -> Seq<Control> {
    Seq::new(controls.len(), |i: int| controls[i]@)
}

pub open spec fn static_views(controls: Seq<IrControl>) -> Seq<Control> {
    Seq::new(controls.len(), |i: int| controls[i]@)
}

/// What switches an emitter on and off.
pub struct Profile {
    pub name: Seq<char>,
    pub on: Seq<Control>,
    pub off: Seq<Control>,
    pub source: Seq<char>,
}

pub open spec fn device_profile(device: IrDevice) -> Profile {
    Profile {
        name: device.name@,
        on: static_views(device.on_sequence@),
        off: static_views(device.off_sequence@),
        source: device.source@,
    }
}

#[derive(Debug, PartialEq, Eq)]
pub struct IrProfile {
    pub name: String,
    pub on_sequence: Vec<RuntimeControl>,
    pub off_sequence: Vec<RuntimeControl>,
    pub source: String,
}

impl View for IrProfile {
    type V = Profile;

    open spec fn view(&self) -> Profile {
        Profile {
            name: self.name@,
            on: runtime_views(self.on_sequence@),
            off: runtime_views(self.off_sequence@),
            source: self.source@,
        }
    }
}

fn copy_bytes(bytes: &[u8]) -> (r: Vec<u8>)
    ensures
        r@ == bytes@,
{
    let mut r: Vec<u8> = Vec::new();
    r.extend_from_slice(bytes);
    proof {
        assert(r@ =~= bytes@);
    }
    r
}

impl RuntimeControl {
    pub fn from_static(control: &IrControl) -> (r: RuntimeControl)
        ensures
            r@ == control@,
    {
        RuntimeControl {
            unit: control.unit,
            selector: control.selector,
            query: control.query,
            payload: copy_bytes(control.payload.as_slice()),
        }
    }

    pub fn set(unit: u8, selector: u8, payload: &[u8]) -> (r: RuntimeControl)
        ensures
            r@ == (Control { unit, selector, query: IrQuery::SetCur, payload: payload@ }),
    {
        RuntimeControl { unit, selector, query: IrQuery::SetCur, payload: copy_bytes(payload) }
    }

    fn duplicate(&self) -> (r: RuntimeControl)
        ensures
            r@ == self@,
    {
        RuntimeControl {
            unit: self.unit,
            selector: self.selector,
            query: self.query,
            payload: copy_bytes(self.payload.as_slice()),
        }
    }

    /// The code of the query in the kernel's interface.
    pub fn query_code(&self) -> (r: u8)
        ensures
            r == (match self@.query {
                IrQuery::SetCur => SET_CUR,
                IrQuery::GetCur => GET_CUR,
            }),
    {
        match self.query {
            IrQuery::SetCur => SET_CUR,
            IrQuery::GetCur => GET_CUR,
        }
    }
}

fn from_statics(controls: &Vec<IrControl>) -> (r: Vec<RuntimeControl>)
    ensures
        runtime_views(r@) == static_views(controls@),
{
    let mut r: Vec<RuntimeControl> = Vec::new();
    for i in 0..controls.len()
        invariant
            r@.len() == i,
            forall|j: int| 0 <= j < i ==> (#[trigger] r@[j])@ == controls@[j]@,
    {
        r.push(RuntimeControl::from_static(&controls[i]));
    }
    proof {
        assert(runtime_views(r@) =~= static_views(controls@));
    }
    r
}

fn duplicates(controls: &Vec<RuntimeControl>) -> (r: Vec<RuntimeControl>)
    ensures
        runtime_views(r@) == runtime_views(controls@),
{
    let mut r: Vec<RuntimeControl> = Vec::new();
    for i in 0..controls.len()
        invariant
            r@.len() == i,
            forall|j: int| 0 <= j < i ==> (#[trigger] r@[j])@ == controls@[j]@,
    {
        r.push(controls[i].duplicate());
    }
    proof {
        assert(runtime_views(r@) =~= runtime_views(controls@));
    }
    r
}

impl IrProfile {
    pub fn from_static(device: &IrDevice) -> (r: IrProfile)
        ensures
            r@ == device_profile(*device),
    {
        IrProfile {
            name: device.name.clone(),
            on_sequence: from_statics(&device.on_sequence),
            off_sequence: from_statics(&device.off_sequence),
            source: device.source.clone(),
        }
    }

    fn duplicate(&self) -> (r: IrProfile)
        ensures
            r@ == self@,
    {
        IrProfile {
            name: self.name.clone(),
            on_sequence: duplicates(&self.on_sequence),
            off_sequence: duplicates(&self.off_sequence),
            source: self.source.clone(),
        }
    }
}

/// The first known device with these ids.
pub open spec fn known_device(devices: Seq<IrDevice>, vid: u16, pid: u16) -> Option<IrDevice>
    decreases devices.len(),
{
    if devices.len() == 0 {
        None
    } else if devices[0].vid == vid && devices[0].pid == pid {
        Some(devices[0])
    } else {
        known_device(devices.skip(1), vid, pid)
    }
}

pub fn find_device(devices: &Vec<IrDevice>, vid: u16, pid: u16) -> (r: Option<&IrDevice>)
    ensures
        match r {
            Some(found) => known_device(devices@, vid, pid) == Some(*found),
            None => known_device(devices@, vid, pid) is None,
        },
{
    proof {
        assert(devices@.skip(0) =~= devices@);
    }
    for i in 0..devices.len()
        invariant
            known_device(devices@, vid, pid) == known_device(devices@.skip(i as int), vid, pid),
    {
        if devices[i].vid == vid && devices[i].pid == pid {
            return Some(&devices[i]);
        }
        proof {
            assert(devices@.skip(i as int).skip(1) =~= devices@.skip(i as int + 1));
        }
    }
    None
}

/// The shape of a face authentication control: 1, 3, a mode from 1 to 3, and zeros.
pub open spec fn face_auth_shape(payload: Seq<u8>) -> bool {
    &&& payload.len() == FACE_AUTH_LEN
    &&& payload[0] == 1
    &&& payload[1] == 3
    &&& 1 <= payload[2] <= 3
    &&& forall|i: int| 3 <= i < FACE_AUTH_LEN ==> #[trigger] payload[i] == 0
}

pub fn looks_like_face_auth_control(payload: &[u8; 9]) -> (r: bool)
    ensures
        r == face_auth_shape(payload@),
{
    if !(payload[0] == 1 && payload[1] == 3 && 1 <= payload[2] && payload[2] <= 3) {
        return false;
    }
    for i in 3..9usize
        invariant
            forall|j: int| 3 <= j < i ==> #[trigger] payload@[j] == 0,
    {
        if payload[i] != 0 {
            return false;
        }
    }
    true
}

/// The profile of a unit that answers to face authentication.
pub open spec fn face_auth_profile(vid: u16, pid: u16, unit: u8) -> Profile {
    Profile {
        name: "USB "@ + text::padded(vid as nat, 16, 4) + ":"@ + text::padded(pid as nat, 16, 4)
            + " Microsoft Face Authentication UVC control"@,
        on: seq![
            Control {
                unit,
                selector: FACE_AUTH_SELECTOR,
                query: IrQuery::SetCur,
                payload: FACE_AUTH_ON_ALT_FRAME@,
            },
        ],
        off: seq![
            Control {
                unit,
                selector: FACE_AUTH_SELECTOR,
                query: IrQuery::SetCur,
                payload: FACE_AUTH_OFF_DISABLED@,
            },
        ],
        source: "runtime probe: selector 0x06 exposes Microsoft Face Authentication-style [1,3,mode,0...] control"@,
    }
}

/// What both payloads that a probed profile writes look like: the shape that was probed for, the
/// same but for the mode.
pub proof fn face_auth_payloads_have_the_probed_shape()
    ensures
        face_auth_shape(FACE_AUTH_ON_ALT_FRAME@),
        face_auth_shape(FACE_AUTH_OFF_DISABLED@),
        forall|i: int|
            0 <= i < FACE_AUTH_LEN && i != 2 ==> FACE_AUTH_ON_ALT_FRAME@[i]
                == FACE_AUTH_OFF_DISABLED@[i],
        FACE_AUTH_ON_ALT_FRAME@[2] != FACE_AUTH_OFF_DISABLED@[2],
{
}

/// The first unit whose answer has the shape of a face authentication control. The answers are those
/// of units 1, 2, 3 and so on.
pub open spec fn answering_unit(answers: Seq<Option<[u8; 9]>>) -> int
    decreases answers.len(),
{
    if answers.len() == 0 || (answers[0] is Some && face_auth_shape((answers[0]->0)@)) {
        1
    } else {
        1 + answering_unit(answers.skip(1))
    }
}

/// Extension unit ids are assigned per device and cannot be enumerated, so the face authentication
/// unit of an unlisted camera is found by asking every id in turn.
pub fn probe_face_auth_profile(vid: u16, pid: u16, answers: &Vec<Option<[u8; 9]>>) -> (r: Option<
    IrProfile,
>)
    requires
        answers@.len() <= FACE_AUTH_PROBE_MAX_UNIT,
    ensures
        match r {
            Some(profile) => answering_unit(answers@) <= answers@.len() && profile@
                == face_auth_profile(vid, pid, answering_unit(answers@) as u8),
            None => answering_unit(answers@) > answers@.len(),
        },
{
    proof {
        assert(answers@.skip(0) =~= answers@);
    }
    for i in 0..answers.len()
        invariant
            answers@.len() <= FACE_AUTH_PROBE_MAX_UNIT,
            answering_unit(answers@) == i + answering_unit(answers@.skip(i as int)),
    {
        if let Some(payload) = &answers[i] {
            if looks_like_face_auth_control(payload) {
                let unit: u8 = i as u8 + 1;
                let vid_text = text::hex_text(vid as u64, 4);
                let pid_text = text::hex_text(pid as u64, 4);
                let name = text::cat5(
                    "USB ",
                    vid_text.as_str(),
                    ":",
                    pid_text.as_str(),
                    " Microsoft Face Authentication UVC control",
                );
                let on = RuntimeControl::set(
                    unit,
                    FACE_AUTH_SELECTOR,
                    FACE_AUTH_ON_ALT_FRAME.as_slice(),
                );
                let off = RuntimeControl::set(
                    unit,
                    FACE_AUTH_SELECTOR,
                    FACE_AUTH_OFF_DISABLED.as_slice(),
                );
                let mut on_sequence: Vec<RuntimeControl> = Vec::new();
                on_sequence.push(on);
                let mut off_sequence: Vec<RuntimeControl> = Vec::new();
                off_sequence.push(off);
                let profile = IrProfile {
                    name,
                    on_sequence,
                    off_sequence,
                    source:
                        "runtime probe: selector 0x06 exposes Microsoft Face Authentication-style [1,3,mode,0...] control".to_owned(),
                };
                proof {
                    let wanted = face_auth_profile(vid, pid, unit);
                    assert(profile@.on =~= wanted.on);
                    assert(profile@.off =~= wanted.off);
                }
                return Some(profile);
            }
        }
        proof {
            assert(answers@.skip(i as int).skip(1) =~= answers@.skip(i as int + 1));
        }
    }
    None
}

pub open spec fn profile_view(profile: Option<IrProfile>) -> Option<Profile> {
    match profile {
        Some(profile) => Some(profile@),
        None => None,
    }
}

fn duplicate_profile(profile: &Option<IrProfile>) -> (r: Option<IrProfile>)
    ensures
        profile_view(r) == profile_view(*profile),
{
    match profile {
        Some(profile) => Some(profile.duplicate()),
        None => None,
    }
}

/// What probing a node found.
struct ProbeEntry {
    node: String,
    profile: Option<IrProfile>,
}

/// What was found of each node that was probed, so that no node is probed twice.
pub struct ProbeCache {
    entries: Vec<ProbeEntry>,
}

spec fn remembered(entries: Seq<ProbeEntry>) -> Map<Seq<char>, Option<Profile>>
    decreases entries.len(),
{
    if entries.len() == 0 {
        Map::empty()
    } else {
        remembered(entries.drop_last()).insert(
            entries.last().node@,
            profile_view(entries.last().profile),
        )
    }
}

impl View for ProbeCache {
    type V = Map<Seq<char>, Option<Profile>>;

    closed spec fn view(&self) -> Map<Seq<char>, Option<Profile>> {
        remembered(self.entries@)
    }
}

impl ProbeCache {
    pub fn new() -> (r: ProbeCache)
        ensures
            r@ == Map::<Seq<char>, Option<Profile>>::empty(),
    {
        ProbeCache { entries: Vec::new() }
    }

    fn position(&self, node: &str) -> (r: Option<usize>)
        ensures
            match r {
                Some(i) => i < self.entries@.len() && self@.dom().contains(node@) && self@[node@]
                    == profile_view(self.entries@[i as int].profile),
                None => !self@.dom().contains(node@),
            },
    {
        let mut n: usize = self.entries.len();
        proof {
            assert(self.entries@.take(n as int) =~= self.entries@);
        }
        while n > 0
            invariant
                n <= self.entries@.len(),
                self@.dom().contains(node@) == remembered(
                    self.entries@.take(n as int),
                ).dom().contains(node@),
                self@.dom().contains(node@) ==> self@[node@] == remembered(
                    self.entries@.take(n as int),
                )[node@],
            decreases n,
        {
            proof {
                text::lemma_take_push(self.entries@, n as int - 1);
            }
            if text::str_eq(self.entries[n - 1].node.as_str(), node) {
                return Some(n - 1);
            }
            n = n - 1;
        }
        None
    }

    /// Whether a node has to be asked at all: one that was asked already is not, nor one on a bus
    /// that has no such controls.
    pub fn needs_probe(&self, node: &str, probeable: bool) -> (r: bool)
        ensures
            r == (!self@.dom().contains(node@) && probeable),
    {
        probeable && self.position(node).is_none()
    }

    /// The profile of an unlisted camera, remembered from the first probe. A bus that cannot be
    /// probed is remembered as having none; a probe that failed is not remembered.
    pub fn cached_face_auth_profile(
        &mut self,
        node: &str,
        probeable: bool,
        probe: Result<Option<IrProfile>, String>,
    ) -> (r: Option<IrProfile>)
        ensures
            if old(self)@.dom().contains(node@) {
                final(self)@ == old(self)@ && profile_view(r) == old(self)@[node@]
            } else if !probeable {
                final(self)@ == old(self)@.insert(node@, None) && r is None
            } else {
                match probe {
                    Ok(found) => final(self)@ == old(self)@.insert(node@, profile_view(found))
                        && profile_view(r) == profile_view(found),
                    Err(_) => final(self)@ == old(self)@ && r is None,
                }
            },
    {
        if let Some(i) = self.position(node) {
            return duplicate_profile(&self.entries[i].profile);
        }
        if !probeable {
            self.remember(node, None);
            return None;
        }
        match probe {
            Ok(found) => {
                let kept = duplicate_profile(&found);
                self.remember(node, kept);
                found
            },
            Err(_) => None,
        }
    }

    fn remember(&mut self, node: &str, profile: Option<IrProfile>)
        ensures
            final(self)@ == old(self)@.insert(node@, profile_view(profile)),
    {
        self.entries.push(ProbeEntry { node: node.to_owned(), profile });
        proof {
            assert(self.entries@.drop_last() =~= old(self).entries@);
        }
    }
}

/// The emitter of a camera.
pub struct IrLed {
    pub node: String,
    pub profile: IrProfile,
}

impl IrLed {
    /// The emitter of a node, by the USB ids of its camera: that of a known device, or else what
    /// probing found.
    pub fn for_path(
        node: &str,
        ids: Option<(u16, u16)>,
        devices: &Vec<IrDevice>,
        probed: Option<IrProfile>,
    ) -> (r: Option<IrLed>)
        ensures
            match r {
                Some(led) => led.node@ == node@ && ids is Some && Some(led.profile@) == (
                match known_device(devices@, (ids->0).0, (ids->0).1) {
                    Some(device) => Some(device_profile(device)),
                    None => profile_view(probed),
                }),
                None => ids is None || (known_device(devices@, (ids->0).0, (ids->0).1) is None
                    && probed is None),
            },
    {
        let (vid, pid) = match ids {
            Some(ids) => ids,
            None => return None,
        };
        let profile = match find_device(devices, vid, pid) {
            Some(device) => IrProfile::from_static(device),
            None => match probed {
                Some(profile) => profile,
                None => return None,
            },
        };
        Some(IrLed { node: node.to_owned(), profile })
    }

    pub fn node(&self) -> (r: &str)
        ensures
            r@ == self.node@,
    {
        self.node.as_str()
    }

    pub fn device_name(&self) -> (r: &str)
        ensures
            r@ == self.profile@.name,
    {
        self.profile.name.as_str()
    }

    /// The controls that switch the emitter.
    pub open spec fn steps(&self, on: bool) -> Seq<RuntimeControl> {
        if on {
            self.profile.on_sequence@
        } else {
            self.profile.off_sequence@
        }
    }

    /// Switches the emitter: opens its node and sends the controls in turn, up to the first that
    /// fails. Where there is nothing to send, the node is not opened.
    ///
    /// The device goes through `send` and comes back from it, so nothing can be sent after a
    /// control that failed.
    pub fn set<
        D,
        O: FnOnce(&str) -> Result<D, String>,
        W: Fn(D, &RuntimeControl) -> Result<D, String>,
    >(&self, on: bool, open: O, send: W) -> (r: Result<(), String>)
        requires
            self.steps(on).len() > 0 ==> forall|node: &str|
                node@ == self.node@ ==> #[trigger] call_requires(open, (node,)),
            forall|device: D, step: &RuntimeControl|
                self.steps(on).contains(*step) ==> #[trigger] call_requires(send, (device, step)),
        ensures
            if self.steps(on).len() == 0 {
                r is Ok
            } else {
                exists|node: &str, opened: Result<D, String>|
                    {
                        &&& node@ == self.node@
                        &&& #[trigger] call_ensures(open, (node,), opened)
                        &&& match opened {
                            Ok(device) => sent(device, send, self.steps(on), self.node@, r),
                            Err(error) => r == Err::<(), String>(error),
                        }
                    }
            },
    {
        let sequence = if on {
            &self.profile.on_sequence
        } else {
            &self.profile.off_sequence
        };
        if sequence.len() == 0 {
            return Ok(());
        }
        let device = match open(self.node.as_str()) {
            Ok(device) => device,
            Err(error) => return Err(error),
        };
        proof {
            assert(sequence@.skip(0) =~= sequence@);
        }
        write_sequence(self.node.as_str(), device, &send, sequence, 0)
    }
}

/// What sending controls in turn comes to: each is sent with the device that the one before it gave
/// back, and the first that fails, which gives none back, is reported.
pub open spec fn sent<D, W: Fn(D, &RuntimeControl) -> Result<D, String>>(
    device: D,
    send: W,
    steps: Seq<RuntimeControl>,
    node: Seq<char>,
    result: Result<(), String>,
) -> bool
    decreases steps.len(),
{
    if steps.len() == 0 {
        result is Ok
    } else {
        exists|outcome: Result<D, String>|
            #[trigger] call_ensures(send, (device, &steps[0]), outcome) && match outcome {
                Ok(next) => sent(next, send, steps.skip(1), node, result),
                Err(error) => result is Err && (result->Err_0)@ == failed_control(
                    node,
                    steps[0]@,
                    error@,
                ),
            }
    }
}

/// Sends the controls from a position on.
fn write_sequence<D, W: Fn(D, &RuntimeControl) -> Result<D, String>>(
    node: &str,
    device: D,
    send: &W,
    sequence: &Vec<RuntimeControl>,
    from: usize,
) -> (r: Result<(), String>)
    requires
        from <= sequence@.len(),
        forall|device: D, step: &RuntimeControl|
            sequence@.contains(*step) ==> #[trigger] call_requires(*send, (device, step)),
    ensures
        sent(device, *send, sequence@.skip(from as int), node@, r),
    decreases sequence@.len() - from,
{
    if from == sequence.len() {
        return Ok(());
    }
    let step = &sequence[from];
    proof {
        assert(sequence@.contains(*step));
        assert(sequence@.skip(from as int)[0] == *step);
        assert(sequence@.skip(from as int).skip(1) =~= sequence@.skip(from as int + 1));
    }
    match send(device, step) {
        Ok(next) => write_sequence(node, next, send, sequence, from + 1),
        Err(error) => Err(control_error(node, step, error.as_str())),
    }
}

pub open spec fn query_name(query: IrQuery) -> Seq<char> {
    match query {
        IrQuery::SetCur => "SetCur"@,
        IrQuery::GetCur => "GetCur"@,
    }
}

/// How a control that failed is shown.
pub open spec fn failed_control(node: Seq<char>, step: Control, error: Seq<char>) -> Seq<char> {
    "UVC "@ + query_name(step.query) + " control ioctl on "@ + node + " failed for unit=0x"@
        + text::padded(step.unit as nat, 16, 2) + " selector=0x"@ + text::padded(
        step.selector as nat,
        16,
        2,
    ) + " size="@ + text::decimal(step.payload.len()) + ": "@ + error
}

pub fn control_error(node: &str, step: &RuntimeControl, error: &str) -> (r: String)
    ensures
        r@ == failed_control(node@, step@, error@),
{
    let query = match step.query {
        IrQuery::SetCur => "SetCur",
        IrQuery::GetCur => "GetCur",
    };
    let unit = text::hex_text(step.unit as u64, 2);
    let selector = text::hex_text(step.selector as u64, 2);
    let size = text::decimal_text(step.payload.len() as u64);
    let mut r = text::cat5("UVC ", query, " control ioctl on ", node, " failed for unit=0x");
    r.append(unit.as_str());
    r.append(" selector=0x");
    r.append(selector.as_str());
    r.append(" size=");
    r.append(size.as_str());
    r.append(": ");
    r.append(error);
    r
}

/// The known device of some ids is the first in the table that has them, and there is none where no
/// entry has them.
pub proof fn the_table_is_read_from_the_top(devices: Seq<IrDevice>, vid: u16, pid: u16)
    ensures
        match known_device(devices, vid, pid) {
            Some(device) => exists|i: int|
                {
                    &&& 0 <= i < devices.len()
                    &&& #[trigger] devices[i] == device
                    &&& device.vid == vid
                    &&& device.pid == pid
                    &&& forall|j: int|
                        0 <= j < i ==> !((#[trigger] devices[j]).vid == vid && devices[j].pid == pid)
                },
            None => forall|i: int|
                0 <= i < devices.len() ==> !((#[trigger] devices[i]).vid == vid && devices[i].pid
                    == pid),
        },
    decreases devices.len(),
{
    if devices.len() > 0 && !(devices[0].vid == vid && devices[0].pid == pid) {
        let rest = devices.skip(1);
        the_table_is_read_from_the_top(rest, vid, pid);
        match known_device(devices, vid, pid) {
            Some(device) => {
                let i = choose|i: int|
                    {
                        &&& 0 <= i < rest.len()
                        &&& #[trigger] rest[i] == device
                        &&& device.vid == vid
                        &&& device.pid == pid
                        &&& forall|j: int|
                            0 <= j < i ==> !((#[trigger] rest[j]).vid == vid && rest[j].pid == pid)
                    };
                assert(devices[i + 1] == rest[i]);
                assert forall|j: int| 0 <= j < i + 1 implies !((#[trigger] devices[j]).vid == vid
                    && devices[j].pid == pid) by {
                    if j > 0 {
                        assert(devices[j] == rest[j - 1]);
                    }
                }
            },
            None => {
                assert forall|i: int| 0 <= i < devices.len() implies !((#[trigger] devices[i]).vid
                    == vid && devices[i].pid == pid) by {
                    if i > 0 {
                        assert(devices[i] == rest[i - 1]);
                    }
                }
            },
        }
    } else if devices.len() > 0 {
        assert(devices[0] == known_device(devices, vid, pid)->0);
    }
}

/// An answer has the shape of a face authentication control exactly when it is nine bytes: one, three,
/// a mode from one to three, and zeros.
pub proof fn the_shape_is_nine_bytes(payload: Seq<u8>, mode: u8)
    ensures
        payload.len() != 9 ==> !face_auth_shape(payload),
        face_auth_shape(seq![1u8, 3u8, mode, 0u8, 0u8, 0u8, 0u8, 0u8, 0u8]) <==> 1 <= mode <= 3,
        face_auth_shape(payload) ==> payload == seq![
            1u8,
            3u8,
            payload[2],
            0u8,
            0u8,
            0u8,
            0u8,
            0u8,
            0u8,
        ],
{
    if face_auth_shape(payload) {
        assert forall|i: int| 0 <= i < 9 implies payload[i] == seq![
            1u8,
            3u8,
            payload[2],
            0u8,
            0u8,
            0u8,
            0u8,
            0u8,
            0u8,
        ][i] by {
            if i >= 3 {
                assert(payload[i] == 0);
            }
        }
        assert(payload =~= seq![1u8, 3u8, payload[2], 0u8, 0u8, 0u8, 0u8, 0u8, 0u8]);
    }
}

/// The unit that answers is the first whose answer has the shape; units are numbered from one, and
/// where none answers the number is one more than there are.
pub proof fn the_first_unit_with_the_shape_answers(answers: Seq<Option<[u8; 9]>>, n: int)
    requires
        0 <= n <= answers.len(),
        forall|i: int|
            0 <= i < n ==> (#[trigger] answers[i] matches Some(bytes) ==> !face_auth_shape(bytes@)),
        n < answers.len() ==> (answers[n] matches Some(bytes) && face_auth_shape(bytes@)),
    ensures
        answering_unit(answers) == n + 1,
    decreases n,
{
    if n > 0 {
        let rest = answers.skip(1);
        assert(answers[0] matches Some(bytes) ==> !face_auth_shape(bytes@));
        assert forall|i: int| 0 <= i < n - 1 implies (#[trigger] rest[i] matches Some(bytes)
            ==> !face_auth_shape(bytes@)) by {
            assert(rest[i] == answers[i + 1]);
        }
        if n < answers.len() {
            assert(rest[n - 1] == answers[n]);
        }
        the_first_unit_with_the_shape_answers(rest, n - 1);
    }
}

/// A camera that answers is driven on the unit that answered, by one control each way: the mode for
/// alternate frames turns the light on, and the mode for none turns it off.
pub proof fn a_probed_camera_is_driven_on_its_unit(vid: u16, pid: u16, unit: u8)
    ensures
        ({
            let profile = face_auth_profile(vid, pid, unit);
            &&& profile.on.len() == 1 && profile.off.len() == 1
            &&& profile.on[0].unit == unit && profile.off[0].unit == unit
            &&& profile.on[0].selector == 6 && profile.off[0].selector == 6
            &&& profile.on[0].query == IrQuery::SetCur && profile.off[0].query == IrQuery::SetCur
            &&& profile.on[0].payload == seq![1u8, 3u8, 2u8, 0u8, 0u8, 0u8, 0u8, 0u8, 0u8]
            &&& profile.off[0].payload == seq![1u8, 3u8, 1u8, 0u8, 0u8, 0u8, 0u8, 0u8, 0u8]
            &&& profile.name == "USB "@ + text::padded(vid as nat, 16, 4) + ":"@ + text::padded(
                pid as nat,
                16,
                4,
            ) + " Microsoft Face Authentication UVC control"@
        }),
{
    let profile = face_auth_profile(vid, pid, unit);
    assert(profile.on[0].payload =~= seq![1u8, 3u8, 2u8, 0u8, 0u8, 0u8, 0u8, 0u8, 0u8]);
    assert(profile.off[0].payload =~= seq![1u8, 3u8, 1u8, 0u8, 0u8, 0u8, 0u8, 0u8, 0u8]);
}

/// The numbers of the control interface are those of its protocol.
pub proof fn controls_have_the_numbers_of_their_protocol()
    ensures
        UVC_CTRL_QUERY == 0xc010_7521,
        SET_CUR == 0x01,
        GET_CUR == 0x81,
        FACE_AUTH_SELECTOR == 6,
        FACE_AUTH_LEN == 9,
        FACE_AUTH_PROBE_MAX_UNIT == 31,
{
}

/// A device of the table is driven by its own sequences, control by control.
pub proof fn a_device_keeps_its_sequences(device: IrDevice, i: int)
    ensures
        device_profile(device).name == device.name@,
        device_profile(device).source == device.source@,
        device_profile(device).on.len() == device.on_sequence@.len(),
        device_profile(device).off.len() == device.off_sequence@.len(),
        0 <= i < device.on_sequence@.len() ==> device_profile(device).on[i].payload
            == device.on_sequence@[i].payload@ && device_profile(device).on[i].unit
            == device.on_sequence@[i].unit && device_profile(device).on[i].selector
            == device.on_sequence@[i].selector && device_profile(device).on[i].query
            == device.on_sequence@[i].query,
        0 <= i < device.off_sequence@.len() ==> device_profile(device).off[i].payload
            == device.off_sequence@[i].payload@ && device_profile(device).off[i].unit
            == device.off_sequence@[i].unit && device_profile(device).off[i].selector
            == device.off_sequence@[i].selector && device_profile(device).off[i].query
            == device.off_sequence@[i].query,
{
}

/// A control that fails is reported with its own error at the end.
pub proof fn a_failed_control_is_reported_with_its_error(
    node: Seq<char>,
    step: Control,
    error: Seq<char>,
)
    ensures
        text::ends(failed_control(node, step, error), error),
        query_name(IrQuery::SetCur) == "SetCur"@,
        query_name(IrQuery::GetCur) == "GetCur"@,
{
    let shown = failed_control(node, step, error);
    assert(shown.skip(shown.len() - error.len()) =~= error);
}

} // verus!
