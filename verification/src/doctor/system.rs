//! Checks of the machine, the service and the files that decide what runs as root.

use crate::config::{Config, CONFIG_PATH};
use crate::cpu::{UNSUPPORTED_CPU_FIX, UNSUPPORTED_CPU_MESSAGE};
use crate::doctor::settings::Ownership;
use crate::report::{Finding, Report};
use crate::text::CharClass;
use crate::{cpu, report, text};
use vstd::prelude::*;

verus! {

/// Files that decide what runs as root or who may talk to the daemon. A writable entry here is a
/// path to root, so they are held to the same ownership rule as the PAM stack.
pub const PRIVILEGED_FILES: [&'static str; 5] = [
    "/usr/lib/systemd/system/gazed.service",
    "/lib/systemd/system/gazed.service",
    "/etc/dbus-1/system.d/com.gundulabs.Gaze.conf",
    "/usr/share/dbus-1/system.d/com.gundulabs.Gaze.conf",
    "/usr/share/polkit-1/actions/com.gundulabs.gaze.policy",
];

/// The text of a command's answer: what it wrote, or its complaints where it wrote nothing, without
/// the white space around it.
pub open spec fn answer(stdout: Seq<char>, stderr: Seq<char>) -> Seq<char> {
    text::trimmed(
        if stdout.len() == 0 {
            stderr
        } else {
            stdout
        },
        CharClass::White,
    )
}

pub fn answer_text(stdout: &str, stderr: &str) -> (r: String)
    ensures
        r@ == answer(stdout@, stderr@),
{
    let chosen = if stdout.is_empty() {
        stderr
    } else {
        stdout
    };
    let chosen_chars = text::chars(chosen);
    text::string(text::trim(chosen_chars.as_slice(), CharClass::White))
}

/// How a command ran.
pub enum CommandRun {
    NotStarted(String),
    Ended { success: bool, stdout: String, stderr: String },
}

/// Whether a command succeeded and what it said, or why it could not run.
pub fn command_answer(run: CommandRun) -> (r: Result<(bool, String), String>)
    ensures
        match run {
            CommandRun::NotStarted(error) => r == Err::<(bool, String), String>(error),
            CommandRun::Ended { success, stdout, stderr } => r matches Ok((succeeded, said))
                && succeeded == success && said@ == answer(stdout@, stderr@),
        },
{
    match run {
        CommandRun::NotStarted(error) => Err(error),
        CommandRun::Ended { success, stdout, stderr } => Ok(
            (success, answer_text(stdout.as_str(), stderr.as_str())),
        ),
    }
}

pub open spec fn platform_finding(os: Seq<char>, arch: Seq<char>, x86: bool, avx2: bool) -> Finding {
    if os != "linux"@ {
        report::failing("Platform"@, os + " is not supported"@, "Run Gaze on Linux."@)
    } else if !x86 {
        report::passing("CPU"@, arch + " does not require the x86 AVX2 check"@)
    } else if avx2 {
        report::passing("CPU"@, "AVX2 is available"@)
    } else {
        report::failing("CPU"@, UNSUPPORTED_CPU_MESSAGE@, UNSUPPORTED_CPU_FIX@)
    }
}

pub fn check_platform(report: &mut Report, os: &str, arch: &str, x86: bool, avx2: bool)
    ensures
        final(report)@ == old(report)@ + seq![platform_finding(os@, arch@, x86, avx2)],
{
    if !text::str_eq(os, "linux") {
        let message = text::cat2(os, " is not supported");
        report.error("Platform", message.as_str(), "Run Gaze on Linux.");
    } else if !x86 {
        let message = text::cat2(arch, " does not require the x86 AVX2 check");
        report.pass("CPU", message.as_str());
    } else if cpu::supports_inference(x86, avx2) {
        report.pass("CPU", "AVX2 is available");
    } else {
        report.error("CPU", UNSUPPORTED_CPU_MESSAGE, UNSUPPORTED_CPU_FIX);
    }
}

/// What `systemctl is-active gazed` tells.
pub open spec fn activity_finding(answer: Result<(bool, String), String>) -> Finding {
    match answer {
        Ok((ok, state)) => if ok && state@ == "active"@ {
            report::passing("Service"@, "gazed is active"@)
        } else {
            report::failing(
                "Service"@,
                "gazed is "@ + state@,
                "Run `sudo systemctl enable --now gazed`, then inspect `journalctl -u gazed -n 100 --no-pager` if it fails."@,
            )
        },
        Err(error) => report::failing(
            "Service"@,
            "could not query gazed: "@ + error@,
            "Run `systemctl status gazed`."@,
        ),
    }
}

/// What `systemctl is-enabled gazed` tells.
pub open spec fn enablement_finding(answer: Result<(bool, String), String>) -> Finding {
    match answer {
        Ok((ok, state)) => if ok && state@ == "enabled"@ {
            report::passing("Autostart"@, "gazed is enabled at boot"@)
        } else {
            report::warned(
                "Autostart"@,
                "gazed is "@ + state@,
                "Run `sudo systemctl enable gazed` so authentication still works after reboot."@,
            )
        },
        Err(error) => report::warned(
            "Autostart"@,
            "could not query gazed enablement: "@ + error@,
            "Run `systemctl is-enabled gazed`."@,
        ),
    }
}

pub open spec fn systemd_findings(
    running: bool,
    active: Result<(bool, String), String>,
    enabled: Result<(bool, String), String>,
) -> Seq<Finding> {
    if !running {
        seq![
            report::warned(
                "systemd"@,
                "systemd is not running, so the gazed service state could not be checked"@,
                "On a normal installation, boot with systemd and run `systemctl status gazed`."@,
            ),
        ]
    } else {
        seq![activity_finding(active), enablement_finding(enabled)]
    }
}

pub fn check_systemd(
    report: &mut Report,
    running: bool,
    active: &Result<(bool, String), String>,
    enabled: &Result<(bool, String), String>,
)
    ensures
        final(report)@ == old(report)@ + systemd_findings(running, *active, *enabled),
{
    if !running {
        report.warning(
            "systemd",
            "systemd is not running, so the gazed service state could not be checked",
            "On a normal installation, boot with systemd and run `systemctl status gazed`.",
        );
        return;
    }
    match active {
        Ok((ok, state)) => {
            if *ok && text::str_eq(state.as_str(), "active") {
                report.pass("Service", "gazed is active");
            } else {
                let message = text::cat2("gazed is ", state.as_str());
                report.error(
                    "Service",
                    message.as_str(),
                    "Run `sudo systemctl enable --now gazed`, then inspect `journalctl -u gazed -n 100 --no-pager` if it fails.",
                );
            }
        },
        Err(error) => {
            let message = text::cat2("could not query gazed: ", error.as_str());
            report.error("Service", message.as_str(), "Run `systemctl status gazed`.");
        },
    }
    proof {
        assert(report@ == old(report)@ + seq![activity_finding(*active)]);
    }
    match enabled {
        Ok((ok, state)) => {
            if *ok && text::str_eq(state.as_str(), "enabled") {
                report.pass("Autostart", "gazed is enabled at boot");
            } else {
                let message = text::cat2("gazed is ", state.as_str());
                report.warning(
                    "Autostart",
                    message.as_str(),
                    "Run `sudo systemctl enable gazed` so authentication still works after reboot.",
                );
            }
        },
        Err(error) => {
            let message = text::cat2("could not query gazed enablement: ", error.as_str());
            report.warning("Autostart", message.as_str(), "Run `systemctl is-enabled gazed`.");
        },
    }
    proof {
        assert(report@ =~= old(report)@ + seq![
            activity_finding(*active),
            enablement_finding(*enabled),
        ]);
    }
}

/// A file that someone other than root can change.
pub open spec fn unsafe_ownership(uid: u32, mode: u32) -> bool {
    uid != 0 || mode & 0o022 != 0
}

pub fn ownership_is_unsafe(uid: u32, mode: u32) -> (r: bool)
    ensures
        r == unsafe_ownership(uid, mode),
{
    uid != 0 || mode & 0o022 != 0
}

/// A path with what the system says of it, where it says anything.
pub struct OwnedPath {
    pub path: String,
    pub facts: Option<Ownership>,
}

/// The paths that someone other than root can change.
pub open spec fn insecure_paths(paths: Seq<OwnedPath>) -> Seq<Seq<char>>
    decreases paths.len(),
{
    if paths.len() == 0 {
        seq![]
    } else {
        match paths.last().facts {
            Some(facts) => if unsafe_ownership(facts.uid, facts.mode) {
                insecure_paths(paths.drop_last()).push(paths.last().path@)
            } else {
                insecure_paths(paths.drop_last())
            },
            None => insecure_paths(paths.drop_last()),
        }
    }
}

pub fn insecurely_owned(paths: &Vec<OwnedPath>) -> (r: Vec<String>)
    ensures
        text::texts(r@) == insecure_paths(paths@),
{
    let mut r: Vec<String> = Vec::new();
    proof {
        assert(text::texts(r@) =~= insecure_paths(paths@.take(0)));
    }
    for i in 0..paths.len()
        invariant
            text::texts(r@) == insecure_paths(paths@.take(i as int)),
    {
        proof {
            text::lemma_take_push(paths@, i as int);
        }
        if let Some(facts) = paths[i].facts {
            if ownership_is_unsafe(facts.uid, facts.mode) {
                let path = paths[i].path.clone();
                proof {
                    text::lemma_texts_push(r@, path);
                }
                r.push(path);
            }
        }
    }
    proof {
        assert(paths@.take(paths@.len() as int) =~= paths@);
    }
    r
}

/// The paths whose target no earlier path has.
pub open spec fn first_spellings(paths: Seq<Seq<char>>, targets: Seq<Seq<char>>) -> Seq<Seq<char>>
    decreases paths.len(),
{
    if paths.len() == 0 || targets.len() == 0 {
        seq![]
    } else if targets.drop_last().contains(targets.last()) {
        first_spellings(paths.drop_last(), targets.drop_last())
    } else {
        first_spellings(paths.drop_last(), targets.drop_last()).push(paths.last())
    }
}

fn seen_before(targets: &Vec<String>, n: usize) -> (r: bool)
    requires
        n < targets@.len(),
    ensures
        r == text::texts(targets@).take(n as int).contains(targets@[n as int]@),
{
    let ghost earlier = text::texts(targets@).take(n as int);
    for j in 0..n
        invariant
            n < targets@.len(),
            earlier == text::texts(targets@).take(n as int),
            forall|k: int| 0 <= k < j ==> earlier[k] != targets@[n as int]@,
    {
        if text::str_eq(targets[j].as_str(), targets[n].as_str()) {
            proof {
                assert(earlier[j as int] == targets@[j as int]@);
            }
            return true;
        }
    }
    false
}

/// `/lib` is a symlink to `/usr/lib` on merged-usr systems, so the same unit file appears under both
/// prefixes; it is listed once, under the name that came first. `targets` holds what each path
/// resolves to.
pub fn dedup_by_target(paths: &Vec<String>, targets: &Vec<String>) -> (r: Vec<String>)
    requires
        paths@.len() == targets@.len(),
    ensures
        text::texts(r@) == first_spellings(text::texts(paths@), text::texts(targets@)),
{
    let mut r: Vec<String> = Vec::new();
    let ghost all = text::texts(paths@);
    let ghost ends = text::texts(targets@);
    proof {
        assert(text::texts(r@) =~= first_spellings(all.take(0), ends.take(0)));
    }
    for i in 0..paths.len()
        invariant
            paths@.len() == targets@.len(),
            all == text::texts(paths@),
            ends == text::texts(targets@),
            text::texts(r@) == first_spellings(all.take(i as int), ends.take(i as int)),
    {
        proof {
            text::lemma_take_push(all, i as int);
            text::lemma_take_push(ends, i as int);
        }
        if !seen_before(targets, i) {
            let path = paths[i].clone();
            proof {
                text::lemma_texts_push(r@, path);
            }
            r.push(path);
        }
    }
    proof {
        assert(all.take(all.len() as int) =~= all);
        assert(ends.take(ends.len() as int) =~= ends);
    }
    r
}

/// The privileged files among the first that resolve to something.
pub open spec fn present_files(targets: Seq<Option<String>>, n: int) -> Seq<Seq<char>>
    decreases n,
{
    if n <= 0 {
        seq![]
    } else if targets[n - 1] is Some {
        present_files(targets, n - 1).push(PRIVILEGED_FILES@[n - 1]@)
    } else {
        present_files(targets, n - 1)
    }
}

/// What they resolve to.
pub open spec fn present_targets(targets: Seq<Option<String>>, n: int) -> Seq<Seq<char>>
    decreases n,
{
    if n <= 0 {
        seq![]
    } else {
        match targets[n - 1] {
            Some(target) => present_targets(targets, n - 1).push(target@),
            None => present_targets(targets, n - 1),
        }
    }
}

/// The privileged files that are there, each once. `targets` holds what each of them resolves to,
/// or nothing for one that is absent.
pub fn installed_privileged_files(targets: &Vec<Option<String>>) -> (r: Vec<String>)
    requires
        targets@.len() == 5,
    ensures
        text::texts(r@) == first_spellings(present_files(targets@, 5), present_targets(targets@, 5)),
{
    let mut paths: Vec<String> = Vec::new();
    let mut ends: Vec<String> = Vec::new();
    proof {
        assert(text::texts(paths@) =~= present_files(targets@, 0));
        assert(text::texts(ends@) =~= present_targets(targets@, 0));
    }
    for i in 0..5usize
        invariant
            targets@.len() == 5,
            paths@.len() == ends@.len(),
            text::texts(paths@) == present_files(targets@, i as int),
            text::texts(ends@) == present_targets(targets@, i as int),
    {
        if let Some(target) = &targets[i] {
            let path = PRIVILEGED_FILES[i].to_owned();
            let end = target.clone();
            proof {
                text::lemma_texts_push(paths@, path);
                text::lemma_texts_push(ends@, end);
            }
            paths.push(path);
            ends.push(end);
        }
    }
    dedup_by_target(&paths, &ends)
}

/// Where each target is named first.
pub open spec fn first_positions(targets: Seq<Seq<char>>) -> Seq<int>
    decreases targets.len(),
{
    if targets.len() == 0 {
        seq![]
    } else if targets.drop_last().contains(targets.last()) {
        first_positions(targets.drop_last())
    } else {
        first_positions(targets.drop_last()).push(targets.len() - 1)
    }
}

proof fn lemma_positions(targets: Seq<Seq<char>>)
    ensures
        forall|i: int|
            0 <= i < first_positions(targets).len() ==> 0 <= #[trigger] first_positions(targets)[i]
                < targets.len(),
    decreases targets.len(),
{
    if targets.len() > 0 {
        let before = first_positions(targets.drop_last());
        lemma_positions(targets.drop_last());
        assert forall|i: int| 0 <= i < first_positions(targets).len() implies 0
            <= #[trigger] first_positions(targets)[i] < targets.len() by {
            if i < before.len() {
                assert(first_positions(targets)[i] == before[i]);
            }
        }
    }
}

proof fn lemma_listed(paths: Seq<Seq<char>>, targets: Seq<Seq<char>>)
    requires
        paths.len() == targets.len(),
    ensures
        first_spellings(paths, targets) == Seq::new(
            first_positions(targets).len(),
            |i: int| paths[first_positions(targets)[i]],
        ),
    decreases targets.len(),
{
    let at = first_positions(targets);
    if targets.len() > 0 {
        let before = first_positions(targets.drop_last());
        lemma_listed(paths.drop_last(), targets.drop_last());
        lemma_positions(targets.drop_last());
        assert forall|i: int| 0 <= i < before.len() implies paths.drop_last()[before[i]]
            == paths[at[i]] by {
            assert(at[i] == before[i]);
        }
    }
    assert(first_spellings(paths, targets) =~= Seq::new(at.len(), |i: int| paths[at[i]]));
}

proof fn lemma_distinct(targets: Seq<Seq<char>>)
    ensures
        forall|i: int, j: int|
            0 <= i < j < first_positions(targets).len()
                ==> targets[#[trigger] first_positions(targets)[i]]
                != targets[#[trigger] first_positions(targets)[j]],
    decreases targets.len(),
{
    if targets.len() > 0 {
        let rest = targets.drop_last();
        let before = first_positions(rest);
        let at = first_positions(targets);
        lemma_distinct(rest);
        lemma_positions(rest);
        assert forall|i: int, j: int| 0 <= i < j < at.len() implies targets[#[trigger] at[i]]
            != targets[#[trigger] at[j]] by {
            assert(at[i] == before[i]);
            assert(rest[before[i]] == targets[at[i]]);
            if j < before.len() {
                assert(at[j] == before[j]);
                assert(rest[before[j]] == targets[at[j]]);
            } else {
                assert(rest.contains(rest[before[i]]));
            }
        }
    }
}

proof fn lemma_covered(targets: Seq<Seq<char>>, k: int)
    requires
        0 <= k < targets.len(),
    ensures
        exists|i: int|
            0 <= i < first_positions(targets).len()
                && targets[#[trigger] first_positions(targets)[i]] == targets[k],
    decreases targets.len(),
{
    let rest = targets.drop_last();
    let before = first_positions(rest);
    let at = first_positions(targets);
    lemma_positions(rest);
    if k == targets.len() - 1 && !rest.contains(targets.last()) {
        assert(targets[at[before.len() as int]] == targets[k]);
    } else {
        let m = if k == targets.len() - 1 {
            choose|m: int| 0 <= m < rest.len() && rest[m] == targets.last()
        } else {
            k
        };
        assert(rest[m] == targets[k]);
        lemma_covered(rest, m);
        let i = choose|i: int| 0 <= i < before.len() && rest[#[trigger] before[i]] == rest[m];
        assert(at[i] == before[i]);
        assert(targets[at[i]] == targets[k]);
    }
}

/// No two paths that are listed resolve to the same file, and every file that was named is listed.
pub proof fn every_target_is_listed_once(paths: Seq<Seq<char>>, targets: Seq<Seq<char>>)
    requires
        paths.len() == targets.len(),
    ensures
        first_spellings(paths, targets) == Seq::new(
            first_positions(targets).len(),
            |i: int| paths[first_positions(targets)[i]],
        ),
        forall|i: int, j: int|
            0 <= i < j < first_positions(targets).len()
                ==> targets[#[trigger] first_positions(targets)[i]]
                != targets[#[trigger] first_positions(targets)[j]],
        forall|k: int|
            0 <= k < targets.len() ==> exists|i: int|
                0 <= i < first_positions(targets).len()
                    && targets[#[trigger] first_positions(targets)[i]] == #[trigger] targets[k],
{
    lemma_listed(paths, targets);
    lemma_distinct(targets);
    assert forall|k: int| 0 <= k < targets.len() implies exists|i: int|
        0 <= i < first_positions(targets).len()
            && targets[#[trigger] first_positions(targets)[i]] == #[trigger] targets[k] by {
        lemma_covered(targets, k);
    }
}

pub open spec fn privileged_findings(files: Seq<OwnedPath>) -> Seq<Finding> {
    if files.len() == 0 {
        seq![]
    } else if insecure_paths(files).len() == 0 {
        seq![
            report::passing(
                "Service file permissions"@,
                "the systemd unit, DBus policy, and polkit action are root-owned and not writable by group or others"@,
            ),
        ]
    } else {
        seq![
            report::failing(
                "Service file permissions"@,
                "anyone in the owning group can make gazed run their code or grant themselves access: "@
                    + text::joined(insecure_paths(files), ", "@),
                "Run `sudo chown root:root <file>` and `sudo chmod 644 <file>` on each, or restore them from the package manager."@,
            ),
        ]
    }
}

pub fn check_privileged_files(report: &mut Report, files: &Vec<OwnedPath>)
    ensures
        final(report)@ == old(report)@ + privileged_findings(files@),
{
    if files.len() == 0 {
        proof {
            report::lemma_nothing(report@);
        }
        return;
    }
    let writable = insecurely_owned(files);
    if writable.len() == 0 {
        report.pass(
            "Service file permissions",
            "the systemd unit, DBus policy, and polkit action are root-owned and not writable by group or others",
        );
    } else {
        let listed = text::join(&writable, ", ");
        let message = text::cat2(
            "anyone in the owning group can make gazed run their code or grant themselves access: ",
            listed.as_str(),
        );
        report.error(
            "Service file permissions",
            message.as_str(),
            "Run `sudo chown root:root <file>` and `sudo chmod 644 <file>` on each, or restore them from the package manager.",
        );
    }
}

/// What the daemon's unit lets it do.
#[derive(Debug)]
pub struct DaemonCredentials {
    pub uid: u32,
    pub gids: Vec<u32>,
    pub dac_override: bool,
}

/// A group of the system.
pub struct Group {
    pub name: String,
    pub gid: u32,
}

/// The last value that a unit's properties give a key.
pub open spec fn unit_value(lines: Seq<Seq<char>>, key: Seq<char>) -> Seq<char>
    decreases lines.len(),
{
    if lines.len() == 0 {
        seq![]
    } else {
        match text::split_first(lines.last(), CharClass::Is('=')) {
            Some((name, value)) => if text::trimmed(name, CharClass::White) == key {
                text::trimmed(value, CharClass::White)
            } else {
                unit_value(lines.drop_last(), key)
            },
            None => unit_value(lines.drop_last(), key),
        }
    }
}

fn unit_text<'a>(lines: &Vec<&'a [char]>, key: &str) -> (r: Vec<char>)
    ensures
        r@ == unit_value(text::views(lines@), key@),
{
    let ghost all = text::views(lines@);
    let mut n: usize = lines.len();
    proof {
        assert(all.take(n as int) =~= all);
    }
    while n > 0
        invariant
            all == text::views(lines@),
            n <= lines@.len(),
            unit_value(all, key@) == unit_value(all.take(n as int), key@),
        decreases n,
    {
        proof {
            text::lemma_take_push(all, n as int - 1);
            assert(all[n as int - 1] == lines@[n as int - 1]@);
        }
        if let Some((name, value)) = text::split_once(lines[n - 1], CharClass::Is('=')) {
            if text::is_text(text::trim(name, CharClass::White), key) {
                let found = text::trim(value, CharClass::White);
                let mut r: Vec<char> = Vec::new();
                r.extend_from_slice(found);
                proof {
                    assert(r@ =~= found@);
                }
                return r;
            }
        }
        n = n - 1;
    }
    let r: Vec<char> = Vec::new();
    proof {
        assert(r@ =~= seq![]);
    }
    r
}

/// The number of a group, from the first group of that name.
pub open spec fn gid_of(groups: Seq<Group>, name: Seq<char>) -> Option<u32>
    decreases groups.len(),
{
    if groups.len() == 0 {
        None
    } else if groups[0].name@ == name {
        Some(groups[0].gid)
    } else {
        gid_of(groups.skip(1), name)
    }
}

fn find_gid(groups: &Vec<Group>, name: &[char]) -> (r: Option<u32>)
    ensures
        r == gid_of(groups@, name@),
{
    proof {
        assert(groups@.skip(0) =~= groups@);
    }
    for i in 0..groups.len()
        invariant
            gid_of(groups@, name@) == gid_of(groups@.skip(i as int), name@),
    {
        if text::is_text(name, groups[i].name.as_str()) {
            return Some(groups[i].gid);
        }
        proof {
            assert(groups@.skip(i as int).skip(1) =~= groups@.skip(i as int + 1));
        }
    }
    None
}

/// The numbers of the groups that are known.
pub open spec fn gids_of(groups: Seq<Group>, names: Seq<Seq<char>>) -> Seq<u32>
    decreases names.len(),
{
    if names.len() == 0 {
        seq![]
    } else {
        match gid_of(groups, names.last()) {
            Some(gid) => gids_of(groups, names.drop_last()).push(gid),
            None => gids_of(groups, names.drop_last()),
        }
    }
}

pub open spec fn overrides_access(capabilities: Seq<Seq<char>>) -> bool {
    exists|i: int|
        0 <= i < capabilities.len() && text::lowered(#[trigger] capabilities[i]) == text::lowered(
            "cap_dac_override"@,
        )
}

/// What a unit's properties let the daemon do; nothing is concluded of a unit that is not loaded or
/// that does not run as root.
pub open spec fn credentials_of(properties: Seq<char>, groups: Seq<Group>) -> Option<
    (u32, Seq<u32>, bool),
> {
    let lines = text::lines_of(properties);
    let user = unit_value(lines, "User"@);
    if unit_value(lines, "LoadState"@) != "loaded"@ {
        None
    } else if !(user.len() == 0 || user == "root"@ || user == "0"@) {
        None
    } else {
        Some(
            (
                0,
                seq![0u32] + gids_of(
                    groups,
                    text::words_of(unit_value(lines, "SupplementaryGroups"@), CharClass::White),
                ),
                overrides_access(
                    text::words_of(unit_value(lines, "CapabilityBoundingSet"@), CharClass::White),
                ),
            ),
        )
    }
}

pub open spec fn credentials_view(credentials: DaemonCredentials) -> (u32, Seq<u32>, bool) {
    (credentials.uid, credentials.gids@, credentials.dac_override)
}

fn known_gids(groups: &Vec<Group>, field: &[char]) -> (r: Vec<u32>)
    ensures
        r@ == seq![0u32] + gids_of(groups@, text::words_of(field@, CharClass::White)),
{
    let words = text::words(field, CharClass::White);
    let ghost all = text::words_of(field@, CharClass::White);
    let mut r: Vec<u32> = Vec::new();
    r.push(0u32);
    proof {
        assert(r@ =~= seq![0u32] + gids_of(groups@, all.take(0)));
    }
    for i in 0..words.len()
        invariant
            text::views(words@) == all,
            r@ == seq![0u32] + gids_of(groups@, all.take(i as int)),
    {
        proof {
            assert(all[i as int] == words@[i as int]@);
            text::lemma_take_push(all, i as int);
        }
        if let Some(gid) = find_gid(groups, words[i]) {
            r.push(gid);
            proof {
                assert(r@ =~= seq![0u32] + gids_of(groups@, all.take(i as int + 1)));
            }
        }
    }
    proof {
        assert(all.take(words@.len() as int) =~= all);
    }
    r
}

fn has_override(field: &[char]) -> (r: bool)
    ensures
        r == overrides_access(text::words_of(field@, CharClass::White)),
{
    let words = text::words(field, CharClass::White);
    let wanted = text::lower(text::chars("cap_dac_override").as_slice());
    let ghost all = text::words_of(field@, CharClass::White);
    for i in 0..words.len()
        invariant
            text::views(words@) == all,
            all == text::words_of(field@, CharClass::White),
            wanted@ == text::lowered("cap_dac_override"@),
            forall|j: int|
                0 <= j < i ==> text::lowered(#[trigger] all[j]) != text::lowered(
                    "cap_dac_override"@,
                ),
    {
        proof {
            assert(all[i as int] == words@[i as int]@);
        }
        if text::same(text::lower(words[i]).as_slice(), wanted.as_slice()) {
            return true;
        }
    }
    false
}

/// The names of the groups that a unit adds to the daemon.
pub fn unit_groups(properties: &str) -> (r: Vec<String>)
    ensures
        text::texts(r@) == text::words_of(
            unit_value(text::lines_of(properties@), "SupplementaryGroups"@),
            CharClass::White,
        ),
{
    let properties_chars = text::chars(properties);
    let lines = text::lines(properties_chars.as_slice());
    let field = unit_text(&lines, "SupplementaryGroups");
    text::strings(&text::words(field.as_slice(), CharClass::White))
}

pub fn parse_daemon_credentials(properties: &str, groups: &Vec<Group>) -> (r: Option<
    DaemonCredentials,
>)
    ensures
        match r {
            Some(found) => credentials_of(properties@, groups@) == Some(credentials_view(found)),
            None => credentials_of(properties@, groups@) is None,
        },
{
    let properties_chars = text::chars(properties);
    let lines = text::lines(properties_chars.as_slice());
    let load_state = unit_text(&lines, "LoadState");
    if !text::is_text(load_state.as_slice(), "loaded") {
        return None;
    }
    let user = unit_text(&lines, "User");
    if !(user.len() == 0 || text::is_text(user.as_slice(), "root") || text::is_text(
        user.as_slice(),
        "0",
    )) {
        return None;
    }
    let added = unit_text(&lines, "SupplementaryGroups");
    let capabilities = unit_text(&lines, "CapabilityBoundingSet");
    Some(
        DaemonCredentials {
            uid: 0,
            gids: known_gids(groups, added.as_slice()),
            dac_override: has_override(capabilities.as_slice()),
        },
    )
}

/// Unix permission classes: the owner's bits count for the owner, else the group's for a member of
/// the group, else those of everybody. Both reading and writing must be allowed.
pub open spec fn openable(uid: u32, gid: u32, mode: u32, credentials: (u32, Seq<u32>, bool)) -> bool {
    let class = if uid == credentials.0 {
        0o600u32
    } else if credentials.1.contains(gid) {
        0o060u32
    } else {
        0o006u32
    };
    credentials.2 || mode & class == class
}

fn has_gid(gids: &Vec<u32>, gid: u32) -> (r: bool)
    ensures
        r == gids@.contains(gid),
{
    for i in 0..gids.len()
        invariant
            forall|j: int| 0 <= j < i ==> gids@[j] != gid,
    {
        if gids[i] == gid {
            return true;
        }
    }
    false
}

pub fn node_openable(uid: u32, gid: u32, mode: u32, credentials: &DaemonCredentials) -> (r: bool)
    ensures
        r == openable(uid, gid, mode, credentials_view(*credentials)),
{
    if credentials.dac_override {
        return true;
    }
    let class: u32 = if uid == credentials.uid {
        0o600
    } else if has_gid(&credentials.gids, gid) {
        0o060
    } else {
        0o006
    };
    mode & class == class
}

/// What the system says of a TPM device node.
pub struct NodeFacts {
    pub uid: u32,
    pub gid: u32,
    pub mode: u32,
    pub user: String,
    pub group: String,
}

/// A TPM device node that is present.
pub struct TpmNode {
    pub path: String,
    pub facts: Option<NodeFacts>,
}

/// What the first node that settles the question says.
pub open spec fn tpm_verdict(nodes: Seq<TpmNode>, credentials: (u32, Seq<u32>, bool)) -> Option<
    Finding,
>
    decreases nodes.len(),
{
    if nodes.len() == 0 {
        None
    } else {
        match nodes[0].facts {
            None => Some(
                report::passing("TPM"@, "a TPM device is present for encrypted templates"@),
            ),
            Some(facts) => if openable(facts.uid, facts.gid, facts.mode, credentials) {
                Some(
                    report::passing(
                        "TPM"@,
                        "a TPM device is present and gazed can open "@ + nodes[0].path@,
                    ),
                )
            } else {
                tpm_verdict(nodes.skip(1), credentials)
            },
        }
    }
}

/// How a node that cannot be opened is shown.
pub open spec fn blocked_text(node: TpmNode) -> Seq<char> {
    let facts = node.facts->0;
    node.path@ + " is "@ + facts.user@ + ":"@ + facts.group@ + " "@ + text::padded(
        (facts.mode & 0o777) as nat,
        8,
        4,
    )
}

pub open spec fn blocked_texts(nodes: Seq<TpmNode>) -> Seq<Seq<char>> {
    Seq::new(nodes.len(), |i: int| blocked_text(nodes[i]))
}

pub open spec fn tpm_findings(
    config: Option<Config>,
    nodes: Seq<TpmNode>,
    credentials: Option<(u32, Seq<u32>, bool)>,
) -> Seq<Finding> {
    match config {
        None => seq![],
        Some(config) => if !config.storage.encrypt_templates {
            seq![
                report::switched_off(
                    "TPM"@,
                    "template encryption is off, so face templates sit on disk unencrypted and no TPM is required"@,
                    "Turn it on: set `encrypt_templates = true` under [storage] in "@ + CONFIG_PATH@
                        + ", then restart gazed."@,
                ),
            ]
        } else if nodes.len() == 0 {
            seq![
                report::failing(
                    "TPM"@,
                    "template encryption is enabled but no TPM device is present"@,
                    "Enable TPM 2.0 in firmware or set storage.encrypt_templates = false, then restart gazed."@,
                ),
            ]
        } else {
            match credentials {
                None => seq![
                    report::passing("TPM"@, "a TPM device is present for encrypted templates"@),
                ],
                Some(credentials) => match tpm_verdict(nodes, credentials) {
                    Some(finding) => seq![finding],
                    None => seq![
                        report::failing(
                            "TPM"@,
                            "template encryption is enabled but the gazed unit cannot open the TPM device ("@
                                + text::joined(blocked_texts(nodes), ", "@) + ")"@,
                            "Run `sudo systemctl edit gazed` and add `SupplementaryGroups=tss` (or `CapabilityBoundingSet=CAP_DAC_READ_SEARCH CAP_DAC_OVERRIDE`) under [Service], then run `sudo systemctl restart gazed`."@,
                        ),
                    ],
                },
            }
        },
    }
}

fn show_blocked(path: &str, facts: &NodeFacts) -> (r: String)
    ensures
        r@ == path@ + " is "@ + facts.user@ + ":"@ + facts.group@ + " "@ + text::padded(
            (facts.mode & 0o777) as nat,
            8,
            4,
        ),
{
    let mode = text::padded_octal_text((facts.mode & 0o777) as u64, 4);
    let mut r = text::cat5(path, " is ", facts.user.as_str(), ":", facts.group.as_str());
    r.append(" ");
    r.append(mode.as_str());
    r
}

fn check_tpm_nodes(report: &mut Report, nodes: &Vec<TpmNode>, credentials: &DaemonCredentials)
    ensures
        final(report)@ == old(report)@ + (match tpm_verdict(nodes@, credentials_view(*credentials)) {
            Some(finding) => seq![finding],
            None => seq![
                report::failing(
                    "TPM"@,
                    "template encryption is enabled but the gazed unit cannot open the TPM device ("@
                        + text::joined(blocked_texts(nodes@), ", "@) + ")"@,
                    "Run `sudo systemctl edit gazed` and add `SupplementaryGroups=tss` (or `CapabilityBoundingSet=CAP_DAC_READ_SEARCH CAP_DAC_OVERRIDE`) under [Service], then run `sudo systemctl restart gazed`."@,
                ),
            ],
        }),
{
    let mut blocked: Vec<String> = Vec::new();
    let ghost can = credentials_view(*credentials);
    proof {
        assert(nodes@.skip(0) =~= nodes@);
        assert(text::texts(blocked@) =~= blocked_texts(nodes@).take(0));
    }
    for i in 0..nodes.len()
        invariant
            can == credentials_view(*credentials),
            report@ == old(report)@,
            tpm_verdict(nodes@, can) == tpm_verdict(nodes@.skip(i as int), can),
            text::texts(blocked@) == blocked_texts(nodes@).take(i as int),
    {
        let node = &nodes[i];
        match &node.facts {
            None => {
                report.pass("TPM", "a TPM device is present for encrypted templates");
                return;
            },
            Some(facts) => {
                if node_openable(facts.uid, facts.gid, facts.mode, credentials) {
                    let message = text::cat2(
                        "a TPM device is present and gazed can open ",
                        node.path.as_str(),
                    );
                    report.pass("TPM", message.as_str());
                    return;
                }
                let shown = show_blocked(node.path.as_str(), facts);
                proof {
                    text::lemma_texts_push(blocked@, shown);
                    text::lemma_take_push(blocked_texts(nodes@), i as int);
                    assert(nodes@.skip(i as int).skip(1) =~= nodes@.skip(i as int + 1));
                }
                blocked.push(shown);
            },
        }
    }
    proof {
        assert(blocked_texts(nodes@).take(nodes@.len() as int) =~= blocked_texts(nodes@));
    }
    let listed = text::join(&blocked, ", ");
    let message = text::cat3(
        "template encryption is enabled but the gazed unit cannot open the TPM device (",
        listed.as_str(),
        ")",
    );
    report.error(
        "TPM",
        message.as_str(),
        "Run `sudo systemctl edit gazed` and add `SupplementaryGroups=tss` (or `CapabilityBoundingSet=CAP_DAC_READ_SEARCH CAP_DAC_OVERRIDE`) under [Service], then run `sudo systemctl restart gazed`.",
    );
}

pub open spec fn given(config: Option<&Config>) -> Option<Config> {
    match config {
        Some(config) => Some(*config),
        None => None,
    }
}

/// Whether encrypted templates have a TPM that the daemon can open. `nodes` holds the device nodes
/// that are present, in the order in which they are tried.
pub fn check_tpm(
    report: &mut Report,
    config: Option<&Config>,
    nodes: &Vec<TpmNode>,
    credentials: Option<&DaemonCredentials>,
)
    ensures
        final(report)@ == old(report)@ + tpm_findings(
            given(config),
            nodes@,
            match credentials {
                Some(found) => Some(credentials_view(*found)),
                None => None,
            },
        ),
{
    let config = match config {
        Some(config) => config,
        None => {
            proof {
                report::lemma_nothing(report@);
            }
            return;
        },
    };
    if !config.storage.encrypt_templates {
        let how = text::cat3(
            "Turn it on: set `encrypt_templates = true` under [storage] in ",
            CONFIG_PATH,
            ", then restart gazed.",
        );
        report.off(
            "TPM",
            "template encryption is off, so face templates sit on disk unencrypted and no TPM is required",
            how.as_str(),
        );
        return;
    }
    if nodes.len() == 0 {
        report.error(
            "TPM",
            "template encryption is enabled but no TPM device is present",
            "Enable TPM 2.0 in firmware or set storage.encrypt_templates = false, then restart gazed.",
        );
        return;
    }
    match credentials {
        None => {
            report.pass("TPM", "a TPM device is present for encrypted templates");
        },
        Some(credentials) => {
            check_tpm_nodes(report, nodes, credentials);
        },
    }
}

/// A command answers with what it wrote, and with its complaints only where it wrote nothing.
pub proof fn an_answer_is_what_was_written(stdout: Seq<char>, stderr: Seq<char>)
    ensures
        stdout.len() > 0 ==> answer(stdout, stderr) == text::trimmed(stdout, CharClass::White),
        answer(seq![], stderr) == text::trimmed(stderr, CharClass::White),
{
}

/// A machine passes exactly when it runs Linux and, where its processor is an x86 one, has AVX2.
pub proof fn a_machine_passes_only_where_gaze_can_run(
    os: Seq<char>,
    arch: Seq<char>,
    x86: bool,
    avx2: bool,
)
    ensures
        platform_finding(os, arch, x86, avx2).level == report::Level::Pass <==> os == "linux"@ && (
        x86 ==> avx2),
        platform_finding(os, arch, x86, avx2).level == report::Level::Error <==> os != "linux"@ || (
        x86 && !avx2),
        os != "linux"@ ==> text::starts(platform_finding(os, arch, x86, avx2).message, os),
{
    let message = platform_finding(os, arch, x86, avx2).message;
    if os != "linux"@ {
        assert(message.take(os.len() as int) =~= os);
    }
}

/// The service passes exactly when it is said to be active, and its start at boot exactly when it is
/// said to be enabled; the one is an error otherwise, the other a warning.
pub proof fn a_service_passes_only_where_it_runs(answer: Result<(bool, String), String>)
    ensures
        activity_finding(answer).level == report::Level::Pass <==> (answer matches Ok((ok, state))
            && ok && state@ == "active"@),
        activity_finding(answer).level != report::Level::Pass ==> activity_finding(answer).level
            == report::Level::Error,
        enablement_finding(answer).level == report::Level::Pass <==> (answer matches Ok((ok, state))
            && ok && state@ == "enabled"@),
        enablement_finding(answer).level != report::Level::Pass ==> enablement_finding(answer).level
            == report::Level::Warning,
{
}

/// Without systemd the service is not asked for, which is one warning.
pub proof fn a_service_is_asked_for_only_under_systemd(
    active: Result<(bool, String), String>,
    enabled: Result<(bool, String), String>,
)
    ensures
        systemd_findings(true, active, enabled) == seq![
            activity_finding(active),
            enablement_finding(enabled),
        ],
        systemd_findings(false, active, enabled).len() == 1,
        systemd_findings(false, active, enabled)[0].level == report::Level::Warning,
{
}

/// A path is insecure exactly when it is another's than root's, or the group or others may write to
/// it. Insecure paths are found in each part of a list by itself, and keep their order.
pub proof fn insecure_paths_are_found_by_parts(
    left: Seq<OwnedPath>,
    right: Seq<OwnedPath>,
    one: OwnedPath,
)
    ensures
        insecure_paths(left + right) == insecure_paths(left) + insecure_paths(right),
        one.facts is None ==> insecure_paths(seq![one]) == Seq::<Seq<char>>::empty(),
        one.facts matches Some(facts) ==> insecure_paths(seq![one]) == (if facts.uid == 0
            && facts.mode & 0o020 == 0 && facts.mode & 0o002 == 0 {
            seq![]
        } else {
            seq![one.path@]
        }),
    decreases right.len(),
{
    let nothing = Seq::<OwnedPath>::empty();
    assert(seq![one].drop_last() =~= nothing);
    assert(insecure_paths(nothing) =~= seq![]);
    if let Some(facts) = one.facts {
        let mode = facts.mode;
        assert(mode & 0o022 == 0 <==> mode & 0o020 == 0 && mode & 0o002 == 0) by (bit_vector);
        assert(insecure_paths(seq![one]) =~= (if unsafe_ownership(facts.uid, mode) {
            seq![one.path@]
        } else {
            seq![]
        }));
    }
    let all = left + right;
    if right.len() == 0 {
        assert(all =~= left);
        assert(insecure_paths(left) + insecure_paths(right) =~= insecure_paths(left));
    } else {
        insecure_paths_are_found_by_parts(left, right.drop_last(), one);
        assert(all.drop_last() =~= left + right.drop_last());
        assert(all.last() == right.last());
        assert(insecure_paths(all) =~= insecure_paths(left) + insecure_paths(right));
    }
}

/// The files are judged where there are any, and pass exactly when none is insecure.
pub proof fn files_pass_only_where_none_is_insecure(files: Seq<OwnedPath>)
    ensures
        privileged_findings(files).len() == (if files.len() == 0 {
            0int
        } else {
            1int
        }),
        files.len() > 0 ==> (privileged_findings(files)[0].level == report::Level::Pass
            <==> insecure_paths(files).len() == 0),
        files.len() > 0 ==> (privileged_findings(files)[0].level == report::Level::Error
            <==> insecure_paths(files).len() > 0),
{
}

/// A position is among the first ones exactly when no earlier one has the same target, and they stand
/// in order.
pub proof fn first_positions_have_no_earlier_equal(targets: Seq<Seq<char>>)
    ensures
        forall|p: int| #[trigger] first_positions(targets).contains(p) <==> 0 <= p < targets.len()
            && forall|q: int| 0 <= q < p ==> #[trigger] targets[q] != targets[p],
        forall|i: int, j: int|
            0 <= i < j < first_positions(targets).len() ==> #[trigger] first_positions(targets)[i]
                < #[trigger] first_positions(targets)[j],
    decreases targets.len(),
{
    if targets.len() > 0 {
        let rest = targets.drop_last();
        let before = first_positions(rest);
        let at = first_positions(targets);
        first_positions_have_no_earlier_equal(rest);
        lemma_positions(rest);
        let last = targets.len() - 1;
        assert forall|p: int| #[trigger] at.contains(p) <==> 0 <= p < targets.len() && forall|
            q: int,
        |
            0 <= q < p ==> #[trigger] targets[q] != targets[p] by {
            if 0 <= p < last {
                assert(before.contains(p) <==> forall|q: int|
                    0 <= q < p ==> #[trigger] rest[q] != rest[p]);
                assert(rest[p] == targets[p]);
                if before.contains(p) {
                    assert forall|q: int| 0 <= q < p implies #[trigger] targets[q] != targets[p] by {
                        assert(rest[q] == targets[q]);
                    }
                    let i = choose|i: int| 0 <= i < before.len() && before[i] == p;
                    assert(at[i] == p);
                }
                if at.contains(p) {
                    let i = choose|i: int| 0 <= i < at.len() && at[i] == p;
                    assert(i < before.len() ==> before[i] == p);
                }
            } else if p == last {
                if rest.contains(targets.last()) {
                    let q = choose|q: int| 0 <= q < rest.len() && rest[q] == targets.last();
                    assert(targets[q] == targets[p]);
                    if at.contains(p) {
                        let i = choose|i: int| 0 <= i < at.len() && at[i] == p;
                        assert(before[i] < rest.len());
                    }
                } else {
                    assert(at[before.len() as int] == p);
                    assert forall|q: int| 0 <= q < p implies #[trigger] targets[q] != targets[p] by {
                        assert(rest[q] == targets[q]);
                    }
                }
            } else if at.contains(p) {
                let i = choose|i: int| 0 <= i < at.len() && at[i] == p;
                if i < before.len() {
                    assert(before[i] == p);
                }
            }
        }
    }
}

/// The files that exist go with their targets: one of each per file that has a target, in order.
pub proof fn files_go_with_their_targets(targets: Seq<Option<String>>, n: int)
    requires
        0 <= n < targets.len(),
        targets.len() == 5,
    ensures
        present_files(targets, 0) == Seq::<Seq<char>>::empty(),
        present_targets(targets, 0) == Seq::<Seq<char>>::empty(),
        targets[n] matches Some(target) ==> present_files(targets, n + 1) == present_files(
            targets,
            n,
        ).push(PRIVILEGED_FILES@[n]@) && present_targets(targets, n + 1) == present_targets(
            targets,
            n,
        ).push(target@),
        targets[n] is None ==> present_files(targets, n + 1) == present_files(targets, n)
            && present_targets(targets, n + 1) == present_targets(targets, n),
{
}

/// A unit's value is that of the last line with its key, with any space around key and value; further
/// lines of other keys do not change it.
pub proof fn the_last_value_of_a_key_counts(
    left: Seq<Seq<char>>,
    name: Seq<char>,
    value: Seq<char>,
    right: Seq<Seq<char>>,
)
    requires
        text::free_of(name, CharClass::Is('=')),
        forall|i: int|
            0 <= i < right.len() ==> (text::split_first(#[trigger] right[i], CharClass::Is('='))
                matches Some((other, rest)) ==> text::trimmed(other, CharClass::White)
                != text::trimmed(name, CharClass::White)),
    ensures
        unit_value(
            left.push(name.push('=') + value) + right,
            text::trimmed(name, CharClass::White),
        ) == text::trimmed(value, CharClass::White),
        unit_value(right, text::trimmed(name, CharClass::White)) == Seq::<char>::empty(),
    decreases right.len(),
{
    let line = name.push('=') + value;
    let key = text::trimmed(name, CharClass::White);
    let all = left.push(line) + right;
    text::text_is_cut_at_the_first_of_a_class(name, '=', value, CharClass::Is('='));
    if right.len() == 0 {
        assert(all =~= left.push(line));
    } else {
        let rest = right.drop_last();
        assert forall|i: int| 0 <= i < rest.len() implies (text::split_first(
            #[trigger] rest[i],
            CharClass::Is('='),
        ) matches Some((other, tail)) ==> text::trimmed(other, CharClass::White) != key) by {
            assert(rest[i] == right[i]);
        }
        the_last_value_of_a_key_counts(left, name, value, rest);
        assert(all.drop_last() =~= left.push(line) + rest);
        assert(all.last() == right.last());
        assert(right[right.len() - 1] == right.last());
    }
}

/// A group is found by its name, the first of that name; a name of no group has no id.
pub proof fn a_group_is_the_first_of_its_name(groups: Seq<Group>, name: Seq<char>, n: int)
    requires
        0 <= n <= groups.len(),
        forall|i: int| 0 <= i < n ==> (#[trigger] groups[i]).name@ != name,
    ensures
        n < groups.len() && groups[n].name@ == name ==> gid_of(groups, name) == Some(groups[n].gid),
        n == groups.len() ==> gid_of(groups, name) is None,
    decreases n,
{
    if n > 0 {
        assert(groups[0].name@ != name);
        assert forall|i: int| 0 <= i < n - 1 implies (#[trigger] groups.skip(1)[i]).name@ != name by {
            assert(groups[i + 1].name@ != name);
        }
        a_group_is_the_first_of_its_name(groups.skip(1), name, n - 1);
        if n < groups.len() {
            assert(groups.skip(1)[n - 1] == groups[n]);
        }
    }
}

/// The ids of several names are those of each, in order, without the names that no group has.
pub proof fn groups_are_looked_up_one_by_one(
    groups: Seq<Group>,
    left: Seq<Seq<char>>,
    right: Seq<Seq<char>>,
    one: Seq<char>,
)
    ensures
        gids_of(groups, left + right) == gids_of(groups, left) + gids_of(groups, right),
        gids_of(groups, seq![one]) == (match gid_of(groups, one) {
            Some(gid) => seq![gid],
            None => seq![],
        }),
    decreases right.len(),
{
    let nothing = Seq::<Seq<char>>::empty();
    assert(seq![one].drop_last() =~= nothing);
    assert(gids_of(groups, nothing) =~= seq![]);
    assert(gids_of(groups, seq![one]) =~= (match gid_of(groups, one) {
        Some(gid) => seq![gid],
        None => seq![],
    }));
    let all = left + right;
    if right.len() == 0 {
        assert(all =~= left);
        assert(gids_of(groups, left) + gids_of(groups, right) =~= gids_of(groups, left));
    } else {
        groups_are_looked_up_one_by_one(groups, left, right.drop_last(), one);
        assert(all.drop_last() =~= left + right.drop_last());
        assert(all.last() == right.last());
        assert(gids_of(groups, all) =~= gids_of(groups, left) + gids_of(groups, right));
    }
}

/// A capability is found wherever it stands in the list, and in any case of its letters.
pub proof fn a_capability_counts_wherever_it_stands(
    left: Seq<Seq<char>>,
    one: Seq<char>,
    right: Seq<Seq<char>>,
)
    ensures
        overrides_access(left + seq![one] + right) <==> overrides_access(left) || overrides_access(
            right,
        ) || text::lowered(one) == "cap_dac_override"@,
        !overrides_access(seq![]),
{
    reveal_strlit("cap_dac_override");
    assert(text::lowered("cap_dac_override"@) =~= "cap_dac_override"@);
    let all = left + seq![one] + right;
    let key = text::lowered("cap_dac_override"@);
    if overrides_access(left) {
        let i = choose|i: int| 0 <= i < left.len() && text::lowered(#[trigger] left[i]) == key;
        assert(text::lowered(all[i]) == key);
    }
    if overrides_access(right) {
        let i = choose|i: int| 0 <= i < right.len() && text::lowered(#[trigger] right[i]) == key;
        assert(text::lowered(all[left.len() + 1 + i]) == key);
    }
    if text::lowered(one) == key {
        assert(text::lowered(all[left.len() as int]) == key);
    }
    if overrides_access(all) {
        let i = choose|i: int| 0 <= i < all.len() && text::lowered(#[trigger] all[i]) == key;
        if i < left.len() {
            assert(text::lowered(left[i]) == key);
        } else if i > left.len() {
            assert(text::lowered(right[i - left.len() - 1]) == key);
        }
    }
}

/// The daemon's credentials are known exactly when its unit is loaded and runs as root, by no name, by
/// its name or by its number; they are then root's, with the groups and the capability of the unit.
pub proof fn credentials_are_known_only_for_root(properties: Seq<char>, groups: Seq<Group>)
    ensures
        ({
            let lines = text::lines_of(properties);
            let user = unit_value(lines, "User"@);
            let found = credentials_of(properties, groups);
            &&& found is Some <==> unit_value(lines, "LoadState"@) == "loaded"@ && (user.len() == 0
                || user == "root"@ || user == "0"@)
            &&& found matches Some((uid, gids, dac)) ==> uid == 0 && gids[0] == 0 && gids.skip(1)
                == gids_of(
                groups,
                text::words_of(unit_value(lines, "SupplementaryGroups"@), CharClass::White),
            ) && dac == overrides_access(
                text::words_of(unit_value(lines, "CapabilityBoundingSet"@), CharClass::White),
            )
        }),
{
    if let Some((uid, gids, dac)) = credentials_of(properties, groups) {
        let lines = text::lines_of(properties);
        assert(gids.skip(1) =~= gids_of(
            groups,
            text::words_of(unit_value(lines, "SupplementaryGroups"@), CharClass::White),
        ));
    }
}

/// A node can be opened exactly when the capability is held, or when the class that the daemon falls
/// into may both read and write: its owner, else its group, else others.
pub proof fn a_node_is_opened_by_its_class(
    uid: u32,
    gid: u32,
    mode: u32,
    credentials: (u32, Seq<u32>, bool),
)
    ensures
        credentials.2 ==> openable(uid, gid, mode, credentials),
        !credentials.2 && uid == credentials.0 ==> (openable(uid, gid, mode, credentials) <==> mode
            & 0o400 != 0 && mode & 0o200 != 0),
        !credentials.2 && uid != credentials.0 && credentials.1.contains(gid) ==> (openable(
            uid,
            gid,
            mode,
            credentials,
        ) <==> mode & 0o040 != 0 && mode & 0o020 != 0),
        !credentials.2 && uid != credentials.0 && !credentials.1.contains(gid) ==> (openable(
            uid,
            gid,
            mode,
            credentials,
        ) <==> mode & 0o004 != 0 && mode & 0o002 != 0),
{
    assert(mode & 0o600 == 0o600 <==> mode & 0o400 != 0 && mode & 0o200 != 0) by (bit_vector);
    assert(mode & 0o060 == 0o060 <==> mode & 0o040 != 0 && mode & 0o020 != 0) by (bit_vector);
    assert(mode & 0o006 == 0o006 <==> mode & 0o004 != 0 && mode & 0o002 != 0) by (bit_vector);
}

/// Some node settles the question exactly when one can be opened, or gives no permissions to judge by;
/// the first such one does, and the question is then settled for the better.
pub proof fn the_first_node_that_can_be_opened_settles_it(
    nodes: Seq<TpmNode>,
    credentials: (u32, Seq<u32>, bool),
)
    ensures
        tpm_verdict(nodes, credentials) is Some <==> exists|i: int|
            0 <= i < nodes.len() && ((#[trigger] nodes[i]).facts matches Some(facts) ==> openable(
                facts.uid,
                facts.gid,
                facts.mode,
                credentials,
            )),
        tpm_verdict(nodes, credentials) matches Some(finding) ==> finding.level
            == report::Level::Pass,
    decreases nodes.len(),
{
    if nodes.len() > 0 {
        let rest = nodes.skip(1);
        the_first_node_that_can_be_opened_settles_it(rest, credentials);
        if exists|i: int|
            0 <= i < nodes.len() && ((#[trigger] nodes[i]).facts matches Some(facts) ==> openable(
                facts.uid,
                facts.gid,
                facts.mode,
                credentials,
            )) {
            let i = choose|i: int|
                0 <= i < nodes.len() && ((#[trigger] nodes[i]).facts matches Some(facts)
                    ==> openable(facts.uid, facts.gid, facts.mode, credentials));
            if i > 0 {
                assert(rest[i - 1] == nodes[i]);
            }
        }
        if tpm_verdict(rest, credentials) is Some {
            let i = choose|i: int|
                0 <= i < rest.len() && ((#[trigger] rest[i]).facts matches Some(facts) ==> openable(
                    facts.uid,
                    facts.gid,
                    facts.mode,
                    credentials,
                ));
            assert(nodes[i + 1] == rest[i]);
        }
    }
}

/// The TPM is judged where a configuration is known. It is off where templates are not encrypted; it
/// fails where there is no device, or where the credentials are known and no device can be opened.
pub proof fn the_tpm_is_judged_by_what_can_be_opened(
    config: Config,
    nodes: Seq<TpmNode>,
    credentials: Option<(u32, Seq<u32>, bool)>,
)
    ensures
        tpm_findings(None, nodes, credentials).len() == 0,
        ({
            let found = tpm_findings(Some(config), nodes, credentials);
            let blocked = credentials matches Some(credentials) && tpm_verdict(nodes, credentials)
                is None;
            &&& found.len() == 1
            &&& found[0].level == report::Level::Off <==> !config.storage.encrypt_templates
            &&& found[0].level == report::Level::Error <==> config.storage.encrypt_templates && (
            nodes.len() == 0 || blocked)
            &&& found[0].level == report::Level::Pass <==> config.storage.encrypt_templates
                && nodes.len() > 0 && !blocked
        }),
{
    if let Some(credentials) = credentials {
        the_first_node_that_can_be_opened_settles_it(nodes, credentials);
    }
}

/// A blocked node is shown with its path, its owner, its group and its permissions in four octal
/// digits, and every blocked node is shown.
pub proof fn a_blocked_node_is_shown_in_full(nodes: Seq<TpmNode>, i: int)
    requires
        0 <= i < nodes.len(),
        nodes[i].facts is Some,
    ensures
        blocked_texts(nodes).len() == nodes.len(),
        blocked_texts(nodes)[i] == nodes[i].path@ + " is "@ + (nodes[i].facts->0).user@ + ":"@ + (
        nodes[i].facts->0).group@ + " "@ + text::padded(
            ((nodes[i].facts->0).mode & 0o777) as nat,
            8,
            4,
        ),
{
}

} // verus!
