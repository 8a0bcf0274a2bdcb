//! Checks of the PAM modules and of the stacks that load them.

use crate::doctor::settings::Ownership;
use crate::doctor::system;
use crate::doctor::system::OwnedPath;
use crate::pam::{Service, PAM_PASSWORD_MODULE};
use crate::report::{Finding, Report};
use crate::text::CharClass;
use crate::{pam, paths, report, text};
use vstd::prelude::*;

verus! {

pub const ELEVATION_PAM_SERVICE: &'static str = "sudo";

pub const PAM_SUDO_OPTOUT_PATH: &'static str = "/etc/gaze/pam-sudo.optout";

/// How far the services that a service pulls in are followed.
pub const PAM_DEPTH: u8 = 2;

/// A file of `/etc/pam.d`.
pub struct PamFile {
    pub path: String,
    pub contents: String,
    pub facts: Option<Ownership>,
}

pub open spec fn file_name(path: Seq<char>) -> Seq<char> {
    text::after_last(path, '/')
}

fn name_of(path: &str) -> (r: String)
    ensures
        r@ == file_name(path@),
{
    let path_chars = text::chars(path);
    text::string(text::last_piece(path_chars.as_slice(), '/'))
}

/// The files that load a Gaze module.
pub open spec fn referencing(files: Seq<PamFile>) -> Seq<PamFile>
    decreases files.len(),
{
    if files.len() == 0 {
        seq![]
    } else if pam::file_has_reference(files.last().contents@) {
        referencing(files.drop_last()).push(files.last())
    } else {
        referencing(files.drop_last())
    }
}

/// The paths of the files that load the deprecated module.
pub open spec fn deprecated_paths(files: Seq<PamFile>) -> Seq<Seq<char>>
    decreases files.len(),
{
    if files.len() == 0 {
        seq![]
    } else if pam::file_has_grosshack(files.last().contents@) {
        deprecated_paths(files.drop_last()).push(files.last().path@)
    } else {
        deprecated_paths(files.drop_last())
    }
}

/// The paths of the files that someone other than root can change.
pub open spec fn insecure_files(files: Seq<PamFile>) -> Seq<Seq<char>>
    decreases files.len(),
{
    if files.len() == 0 {
        seq![]
    } else {
        match files.last().facts {
            Some(facts) => if system::unsafe_ownership(facts.uid, facts.mode) {
                insecure_files(files.drop_last()).push(files.last().path@)
            } else {
                insecure_files(files.drop_last())
            },
            None => insecure_files(files.drop_last()),
        }
    }
}

pub open spec fn file_names(files: Seq<PamFile>) -> Seq<Seq<char>> {
    Seq::new(files.len(), |i: int| file_name(files[i].path@))
}

pub open spec fn behind(files: Seq<&PamFile>) -> Seq<PamFile> {
    Seq::new(files.len(), |i: int| *files[i])
}

/// Among the files of `/etc/pam.d`, those that load a Gaze module.
pub fn find_pam_references<'a>(files: &'a Vec<PamFile>) -> (r: Vec<&'a PamFile>)
    ensures
        behind(r@) == referencing(files@),
{
    let mut r: Vec<&'a PamFile> = Vec::new();
    proof {
        assert(behind(r@) =~= referencing(files@.take(0)));
    }
    for i in 0..files.len()
        invariant
            behind(r@) == referencing(files@.take(i as int)),
    {
        proof {
            text::lemma_take_push(files@, i as int);
        }
        if pam::pam_file_has_reference(files[i].contents.as_str()) {
            let ghost before = r@;
            r.push(&files[i]);
            proof {
                assert(behind(r@) =~= behind(before).push(files@[i as int]));
            }
        }
    }
    proof {
        assert(files@.take(files@.len() as int) =~= files@);
    }
    r
}

fn find_deprecated(files: &Vec<PamFile>) -> (r: Vec<String>)
    ensures
        text::texts(r@) == deprecated_paths(files@),
{
    let mut r: Vec<String> = Vec::new();
    proof {
        assert(text::texts(r@) =~= deprecated_paths(files@.take(0)));
    }
    for i in 0..files.len()
        invariant
            text::texts(r@) == deprecated_paths(files@.take(i as int)),
    {
        proof {
            text::lemma_take_push(files@, i as int);
        }
        if pam::pam_file_has_grosshack(files[i].contents.as_str()) {
            let path = files[i].path.clone();
            proof {
                text::lemma_texts_push(r@, path);
            }
            r.push(path);
        }
    }
    proof {
        assert(files@.take(files@.len() as int) =~= files@);
    }
    r
}

fn find_insecure(files: &Vec<&PamFile>) -> (r: Vec<String>)
    ensures
        text::texts(r@) == insecure_files(behind(files@)),
{
    let mut r: Vec<String> = Vec::new();
    let ghost all = behind(files@);
    proof {
        assert(text::texts(r@) =~= insecure_files(all.take(0)));
    }
    for i in 0..files.len()
        invariant
            all == behind(files@),
            text::texts(r@) == insecure_files(all.take(i as int)),
    {
        proof {
            text::lemma_take_push(all, i as int);
        }
        if let Some(facts) = files[i].facts {
            if system::ownership_is_unsafe(facts.uid, facts.mode) {
                let path = files[i].path.clone();
                proof {
                    text::lemma_texts_push(r@, path);
                }
                r.push(path);
            }
        }
    }
    proof {
        assert(all.take(all.len() as int) =~= all);
    }
    r
}

fn list_names(files: &Vec<&PamFile>) -> (r: Vec<String>)
    ensures
        text::texts(r@) == file_names(behind(files@)),
{
    let mut r: Vec<String> = Vec::new();
    let ghost all = file_names(behind(files@));
    proof {
        assert(text::texts(r@) =~= all.take(0));
    }
    for i in 0..files.len()
        invariant
            all == file_names(behind(files@)),
            text::texts(r@) == all.take(i as int),
    {
        let name = name_of(files[i].path.as_str());
        proof {
            text::lemma_take_push(all, i as int);
            text::lemma_texts_push(r@, name);
        }
        r.push(name);
    }
    proof {
        assert(all.take(files@.len() as int) =~= all);
    }
    r
}

/// `pam_gaze.so` itself is among the modules that were found.
pub open spec fn module_installed(modules: Seq<OwnedPath>) -> bool {
    exists|i: int|
        0 <= i < modules.len() && file_name((#[trigger] modules[i]).path@) == "pam_gaze.so"@
}

fn has_module(modules: &Vec<OwnedPath>) -> (r: bool)
    ensures
        r == module_installed(modules@),
{
    for i in 0..modules.len()
        invariant
            forall|j: int|
                0 <= j < i ==> file_name((#[trigger] modules@[j]).path@) != "pam_gaze.so"@,
    {
        if text::str_eq(name_of(modules[i].path.as_str()).as_str(), "pam_gaze.so") {
            return true;
        }
    }
    false
}

pub open spec fn module_findings(modules: Seq<OwnedPath>) -> Seq<Finding> {
    seq![
        if module_installed(modules) {
            report::passing("PAM module"@, "pam_gaze.so is installed"@)
        } else {
            report::failing(
                "PAM module"@,
                "pam_gaze.so is not installed where PAM can load it"@,
                "Reinstall the base Gaze package before enabling PAM authentication."@,
            )
        },
    ] + (if modules.len() == 0 {
        seq![]
    } else if system::insecure_paths(modules).len() == 0 {
        seq![
            report::passing(
                "PAM permissions"@,
                "installed modules are root-owned and not writable by group or others"@,
            ),
        ]
    } else {
        seq![
            report::failing(
                "PAM permissions"@,
                "unsafe ownership or write permissions: "@ + text::joined(
                    system::insecure_paths(modules),
                    ", "@,
                ),
                "Restore these files from the package manager; do not use writable PAM modules."@,
            ),
        ]
    })
}

fn check_modules(report: &mut Report, modules: &Vec<OwnedPath>)
    ensures
        final(report)@ == old(report)@ + module_findings(modules@),
{
    if has_module(modules) {
        report.pass("PAM module", "pam_gaze.so is installed");
    } else {
        report.error(
            "PAM module",
            "pam_gaze.so is not installed where PAM can load it",
            "Reinstall the base Gaze package before enabling PAM authentication.",
        );
    }
    if modules.len() > 0 {
        let insecure = system::insecurely_owned(modules);
        if insecure.len() == 0 {
            report.pass(
                "PAM permissions",
                "installed modules are root-owned and not writable by group or others",
            );
        } else {
            let listed = text::join(&insecure, ", ");
            let message = text::cat2("unsafe ownership or write permissions: ", listed.as_str());
            report.error(
                "PAM permissions",
                message.as_str(),
                "Restore these files from the package manager; do not use writable PAM modules.",
            );
        }
    }
    proof {
        assert(report@ =~= old(report)@ + module_findings(modules@));
    }
}

pub open spec fn stack_names_finding(files: Seq<PamFile>) -> Finding {
    report::passing(
        "PAM stack"@,
        "Gaze is referenced by: "@ + text::joined(file_names(files), ", "@),
    )
}

pub open spec fn stack_permission_finding(files: Seq<PamFile>) -> Finding {
    if insecure_files(files).len() == 0 {
        report::passing(
            "PAM stack permissions"@,
            "the service files referencing Gaze are root-owned and not writable by group or others"@,
        )
    } else {
        report::failing(
            "PAM stack permissions"@,
            "anyone in the owning group can make Gaze run their code: "@ + text::joined(
                insecure_files(files),
                ", "@,
            ),
            "Restore these files from the package manager; do not use writable PAM configuration."@,
        )
    }
}

pub open spec fn deprecated_findings(files: Seq<PamFile>) -> Seq<Finding> {
    report::only_if(
        deprecated_paths(files).len() > 0,
        report::warned(
            "Deprecated PAM module"@,
            "pam_gaze_grosshack.so is referenced in: "@ + text::joined(
                deprecated_paths(files),
                ", "@,
            ),
            "Replace 'pam_gaze_grosshack.so' with 'pam_gaze.so simultaneous' in those files. pam_gaze_grosshack.so will be removed in a future release."@,
        ),
    )
}

/// What is said of the order of one file's stack.
pub open spec fn ordering_findings(file: PamFile) -> Seq<Finding> {
    let lines = text::lines_of(file.contents@);
    let conflicts = pam::competitors_above(pam::auth_lines(lines));
    report::only_if(
        conflicts.len() > 0,
        report::warned(
            "PAM ordering"@,
            "pam_gaze.so/pam_gaze_grosshack.so runs after "@ + text::joined(conflicts, ", "@)
                + " in "@ + file.path@
                + ", so face auth won't be tried until those prompts resolve"@,
            "Re-run `sudo pam-auth-update --package` (Debian/Ubuntu) or move the Gaze line above pam_unix.so/pam_fprintd.so."@,
        ),
    ) + report::only_if(
        pam::retry_is_misplaced(pam::auth_lines(lines)),
        report::warned(
            "PAM retry ordering"@,
            "pam_gaze.so retry runs before "@ + PAM_PASSWORD_MODULE@ + " in "@ + file.path@
                + ", so it can never be reached by a rejected password"@,
            "Move the `pam_gaze.so retry` line below pam_unix.so, or re-run `sudo pam-auth-update --package` (Debian/Ubuntu)."@,
        ),
    )
}

/// What is said of the order of every file's stack.
pub open spec fn all_ordering_findings(files: Seq<PamFile>) -> Seq<Finding>
    decreases files.len(),
{
    if files.len() == 0 {
        seq![]
    } else {
        all_ordering_findings(files.drop_last()) + ordering_findings(files.last())
    }
}

fn owned_names(names: &Vec<&'static str>) -> (r: Vec<String>)
    ensures
        text::texts(r@) == pam::names(names@),
{
    let mut r: Vec<String> = Vec::new();
    proof {
        assert(text::texts(r@) =~= pam::names(names@).take(0));
    }
    for i in 0..names.len()
        invariant
            text::texts(r@) == pam::names(names@).take(i as int),
    {
        let name = names[i].to_owned();
        proof {
            text::lemma_take_push(pam::names(names@), i as int);
            text::lemma_texts_push(r@, name);
        }
        r.push(name);
    }
    proof {
        assert(pam::names(names@).take(names@.len() as int) =~= pam::names(names@));
    }
    r
}

fn check_ordering(report: &mut Report, file: &PamFile)
    ensures
        final(report)@ == old(report)@ + ordering_findings(*file),
{
    let conflicts = owned_names(&pam::find_pam_ordering_conflicts(file.contents.as_str()));
    let listed = text::join(&conflicts, ", ");
    let stalled = text::cat5(
        "pam_gaze.so/pam_gaze_grosshack.so runs after ",
        listed.as_str(),
        " in ",
        file.path.as_str(),
        ", so face auth won't be tried until those prompts resolve",
    );
    report.warning_if(
        conflicts.len() > 0,
        "PAM ordering",
        stalled.as_str(),
        "Re-run `sudo pam-auth-update --package` (Debian/Ubuntu) or move the Gaze line above pam_unix.so/pam_fprintd.so.",
    );
    let ghost first = report@;
    let unreachable = text::cat5(
        "pam_gaze.so retry runs before ",
        PAM_PASSWORD_MODULE,
        " in ",
        file.path.as_str(),
        ", so it can never be reached by a rejected password",
    );
    let misplaced = pam::find_misplaced_retry_entry(file.contents.as_str());
    report.warning_if(
        misplaced,
        "PAM retry ordering",
        unreachable.as_str(),
        "Move the `pam_gaze.so retry` line below pam_unix.so, or re-run `sudo pam-auth-update --package` (Debian/Ubuntu).",
    );
    proof {
        let lines = text::lines_of(file.contents@);
        let found = pam::competitors_above(pam::auth_lines(lines));
        let one = report::only_if(
            found.len() > 0,
            report::warned(
                "PAM ordering"@,
                stalled@,
                "Re-run `sudo pam-auth-update --package` (Debian/Ubuntu) or move the Gaze line above pam_unix.so/pam_fprintd.so."@,
            ),
        );
        let two = report::only_if(
            misplaced,
            report::warned(
                "PAM retry ordering"@,
                unreachable@,
                "Move the `pam_gaze.so retry` line below pam_unix.so, or re-run `sudo pam-auth-update --package` (Debian/Ubuntu)."@,
            ),
        );
        assert(first == old(report)@ + one);
        report::lemma_then(old(report)@, one, two);
    }
}

fn check_all_ordering(report: &mut Report, files: &Vec<&PamFile>)
    ensures
        final(report)@ == old(report)@ + all_ordering_findings(behind(files@)),
{
    let ghost all = behind(files@);
    proof {
        report::lemma_nothing(report@);
        assert(all_ordering_findings(all.take(0)) =~= seq![]);
    }
    for i in 0..files.len()
        invariant
            all == behind(files@),
            report@ == old(report)@ + all_ordering_findings(all.take(i as int)),
    {
        check_ordering(report, files[i]);
        proof {
            text::lemma_take_push(all, i as int);
            report::lemma_then(
                old(report)@,
                all_ordering_findings(all.take(i as int)),
                ordering_findings(all[i as int]),
            );
        }
    }
    proof {
        assert(all.take(files@.len() as int) =~= all);
    }
}

/// The remedy for a shared stack that does not load Gaze, by the family of the distribution.
pub open spec fn shared_stack_hint(os_release: Seq<char>) -> Seq<char> {
    let name = text::lowered(os_release);
    if text::mentions(name, "suse"@) {
        "Run `sudo pam-config --add --gaze` then `sudo pam-config --update`, and confirm pam_gaze.so appears in /etc/pam.d/common-auth. See https://gaze.gundulabs.com/guide/pam"@
    } else if text::mentions(name, "fedora"@) || text::mentions(name, "rhel"@) || text::mentions(
        name,
        "centos"@,
    ) {
        "Run `sudo authselect select gaze with-silent-lastlog --force`. See https://gaze.gundulabs.com/guide/pam"@
    } else if text::mentions(name, "debian"@) || text::mentions(name, "ubuntu"@) {
        "Run `sudo pam-auth-update --package` and enable the Gaze profile. See https://gaze.gundulabs.com/guide/pam"@
    } else if text::mentions(name, "arch"@) || text::mentions(name, "manjaro"@) || text::mentions(
        name,
        "omarchy"@,
    ) {
        "Add 'auth        sufficient    pam_gaze.so' above the first auth line of /etc/pam.d/sudo. See https://gaze.gundulabs.com/guide/pam"@
    } else {
        "Add 'auth        sufficient    pam_gaze.so' above the first auth line of your shared auth stack (/etc/pam.d/system-auth, or /etc/pam.d/common-auth on openSUSE). See https://gaze.gundulabs.com/guide/pam"@
    }
}

pub fn shared_stack_hint_for(os_release: &str) -> (r: &'static str)
    ensures
        r@ == shared_stack_hint(os_release@),
{
    let lowered = text::lower(text::chars(os_release).as_slice());
    let name = lowered.as_slice();
    if text::contains(name, "suse") {
        "Run `sudo pam-config --add --gaze` then `sudo pam-config --update`, and confirm pam_gaze.so appears in /etc/pam.d/common-auth. See https://gaze.gundulabs.com/guide/pam"
    } else if text::contains(name, "fedora") || text::contains(name, "rhel") || text::contains(
        name,
        "centos",
    ) {
        "Run `sudo authselect select gaze with-silent-lastlog --force`. See https://gaze.gundulabs.com/guide/pam"
    } else if text::contains(name, "debian") || text::contains(name, "ubuntu") {
        "Run `sudo pam-auth-update --package` and enable the Gaze profile. See https://gaze.gundulabs.com/guide/pam"
    } else if text::contains(name, "arch") || text::contains(name, "manjaro") || text::contains(
        name,
        "omarchy",
    ) {
        "Add 'auth        sufficient    pam_gaze.so' above the first auth line of /etc/pam.d/sudo. See https://gaze.gundulabs.com/guide/pam"
    } else {
        "Add 'auth        sufficient    pam_gaze.so' above the first auth line of your shared auth stack (/etc/pam.d/system-auth, or /etc/pam.d/common-auth on openSUSE). See https://gaze.gundulabs.com/guide/pam"
    }
}

/// What is said of terminal elevation: nothing where the service has no file.
pub open spec fn elevation_findings(
    services: Seq<Service>,
    opted_out: bool,
    os_release: Seq<char>,
) -> Seq<Finding> {
    if pam::contents_of(services, ELEVATION_PAM_SERVICE@) is None {
        seq![]
    } else if pam::reaches(services, ELEVATION_PAM_SERVICE@, PAM_DEPTH as nat) {
        seq![
            report::passing(
                "Elevation PAM"@,
                "the "@ + ELEVATION_PAM_SERVICE@ + " service reaches a Gaze module"@,
            ),
        ]
    } else if opted_out {
        seq![
            report::switched_off(
                "Elevation PAM"@,
                "face authentication for "@ + ELEVATION_PAM_SERVICE@
                    + " is opted out, so terminal elevation always asks for a password"@,
                "Turn it back on: `sudo rm "@ + PAM_SUDO_OPTOUT_PATH@ + "`. "@ + shared_stack_hint(
                    os_release,
                ),
            ),
        ]
    } else {
        seq![
            report::warned(
                "Elevation PAM"@,
                "the "@ + ELEVATION_PAM_SERVICE@
                    + " service reaches no Gaze module, so terminal elevation falls straight through to the password stack"@,
                shared_stack_hint(os_release),
            ),
        ]
    }
}

pub fn check_elevation_pam(
    report: &mut Report,
    services: &Vec<Service>,
    opted_out: bool,
    os_release: &str,
)
    ensures
        final(report)@ == old(report)@ + elevation_findings(services@, opted_out, os_release@),
{
    if pam::find_service(services, ELEVATION_PAM_SERVICE).is_none() {
        proof {
            report::lemma_nothing(report@);
        }
        return;
    }
    let hint = shared_stack_hint_for(os_release);
    if pam::pam_service_reaches_gaze(services, ELEVATION_PAM_SERVICE, PAM_DEPTH) {
        let message = text::cat3(
            "the ",
            ELEVATION_PAM_SERVICE,
            " service reaches a Gaze module",
        );
        report.pass("Elevation PAM", message.as_str());
    } else if opted_out {
        let message = text::cat3(
            "face authentication for ",
            ELEVATION_PAM_SERVICE,
            " is opted out, so terminal elevation always asks for a password",
        );
        let how = text::cat4("Turn it back on: `sudo rm ", PAM_SUDO_OPTOUT_PATH, "`. ", hint);
        report.off("Elevation PAM", message.as_str(), how.as_str());
    } else {
        let message = text::cat3(
            "the ",
            ELEVATION_PAM_SERVICE,
            " service reaches no Gaze module, so terminal elevation falls straight through to the password stack",
        );
        report.warning("Elevation PAM", message.as_str(), hint);
    }
}

/// What is said of graphical elevation: nothing where the service has no file.
pub open spec fn polkit_findings(services: Seq<Service>) -> Seq<Finding> {
    if pam::contents_of(services, "polkit-1"@) is None {
        seq![]
    } else if pam::reaches(services, "polkit-1"@, PAM_DEPTH as nat) {
        seq![
            report::passing("Polkit PAM"@, "the polkit-1 service reaches a Gaze module"@),
        ]
    } else {
        seq![
            report::warned(
                "Polkit PAM"@,
                "the polkit-1 service reaches no Gaze module, so graphical authentication prompts fall straight through to the password stack"@,
                "Add 'auth        sufficient    pam_gaze.so' above the first auth line of /etc/pam.d/polkit-1, copying /usr/lib/pam.d/polkit-1 there first if it does not exist, then restart polkit. See https://gaze.gundulabs.com/guide/pam"@,
            ),
        ]
    }
}

pub fn check_polkit_pam(report: &mut Report, services: &Vec<Service>)
    ensures
        final(report)@ == old(report)@ + polkit_findings(services@),
{
    if pam::find_service(services, "polkit-1").is_none() {
        proof {
            report::lemma_nothing(report@);
        }
        return;
    }
    if pam::pam_service_reaches_gaze(services, "polkit-1", PAM_DEPTH) {
        report.pass("Polkit PAM", "the polkit-1 service reaches a Gaze module");
    } else {
        report.warning(
            "Polkit PAM",
            "the polkit-1 service reaches no Gaze module, so graphical authentication prompts fall straight through to the password stack",
            "Add 'auth        sufficient    pam_gaze.so' above the first auth line of /etc/pam.d/polkit-1, copying /usr/lib/pam.d/polkit-1 there first if it does not exist, then restart polkit. See https://gaze.gundulabs.com/guide/pam",
        );
    }
}

/// What is said of the files that load Gaze.
pub open spec fn reference_findings(
    files: Seq<PamFile>,
    services: Seq<Service>,
    opted_out: bool,
    os_release: Seq<char>,
) -> Seq<Finding> {
    let references = referencing(files);
    if references.len() == 0 {
        seq![
            report::warned(
                "PAM stack"@,
                "no active /etc/pam.d file references a Gaze module"@,
                "Follow the PAM guide for your distribution if you want login, sudo, or lock-screen authentication."@,
            ),
        ]
    } else {
        seq![stack_names_finding(references)] + (seq![stack_permission_finding(references)] + (
        deprecated_findings(files) + (all_ordering_findings(references) + (elevation_findings(
            services,
            opted_out,
            os_release,
        ) + polkit_findings(services)))))
    }
}

fn check_stack_names(report: &mut Report, references: &Vec<&PamFile>)
    ensures
        final(report)@ == old(report)@ + seq![stack_names_finding(behind(references@))],
{
    let listed = text::join(&list_names(references), ", ");
    let message = text::cat2("Gaze is referenced by: ", listed.as_str());
    report.pass("PAM stack", message.as_str());
}

fn check_stack_permissions(report: &mut Report, references: &Vec<&PamFile>)
    ensures
        final(report)@ == old(report)@ + seq![stack_permission_finding(behind(references@))],
{
    let writable = find_insecure(references);
    if writable.len() == 0 {
        report.pass(
            "PAM stack permissions",
            "the service files referencing Gaze are root-owned and not writable by group or others",
        );
    } else {
        let listed = text::join(&writable, ", ");
        let message = text::cat2(
            "anyone in the owning group can make Gaze run their code: ",
            listed.as_str(),
        );
        report.error(
            "PAM stack permissions",
            message.as_str(),
            "Restore these files from the package manager; do not use writable PAM configuration.",
        );
    }
}

fn check_deprecated(report: &mut Report, files: &Vec<PamFile>)
    ensures
        final(report)@ == old(report)@ + deprecated_findings(files@),
{
    let deprecated = find_deprecated(files);
    let listed = text::join(&deprecated, ", ");
    let message = text::cat2("pam_gaze_grosshack.so is referenced in: ", listed.as_str());
    report.warning_if(
        deprecated.len() > 0,
        "Deprecated PAM module",
        message.as_str(),
        "Replace 'pam_gaze_grosshack.so' with 'pam_gaze.so simultaneous' in those files. pam_gaze_grosshack.so will be removed in a future release.",
    );
}

fn check_references(
    report: &mut Report,
    files: &Vec<PamFile>,
    services: &Vec<Service>,
    opted_out: bool,
    os_release: &str,
)
    ensures
        final(report)@ == old(report)@ + reference_findings(
            files@,
            services@,
            opted_out,
            os_release@,
        ),
{
    let references = find_pam_references(files);
    if references.len() == 0 {
        report.warning(
            "PAM stack",
            "no active /etc/pam.d file references a Gaze module",
            "Follow the PAM guide for your distribution if you want login, sudo, or lock-screen authentication.",
        );
        return;
    }
    let ghost start = report@;
    let ghost all = referencing(files@);
    let ghost a = seq![stack_names_finding(all)];
    let ghost b = seq![stack_permission_finding(all)];
    let ghost c = deprecated_findings(files@);
    let ghost d = all_ordering_findings(all);
    let ghost e = elevation_findings(services@, opted_out, os_release@);
    let ghost f = polkit_findings(services@);
    check_stack_names(report, &references);
    check_stack_permissions(report, &references);
    check_deprecated(report, files);
    check_all_ordering(report, &references);
    check_elevation_pam(report, services, opted_out, os_release);
    check_polkit_pam(report, services);
    proof {
        report::lemma_then(start + a + b + c + d, e, f);
        report::lemma_then(start + a + b + c, d, e + f);
        report::lemma_then(start + a + b, c, d + (e + f));
        report::lemma_then(start + a, b, c + (d + (e + f)));
        report::lemma_then(start, a, b + (c + (d + (e + f))));
    }
}

/// Checks the modules that were found, the files of `/etc/pam.d` that load them, and the services
/// that elevation goes through.
pub fn check_pam(
    report: &mut Report,
    modules: &Vec<OwnedPath>,
    files: &Vec<PamFile>,
    services: &Vec<Service>,
    opted_out: bool,
    os_release: &str,
)
    ensures
        final(report)@ == old(report)@ + (module_findings(modules@) + reference_findings(
            files@,
            services@,
            opted_out,
            os_release@,
        )),
{
    check_modules(report, modules);
    check_references(report, files, services, opted_out, os_release);
    proof {
        report::lemma_then(
            old(report)@,
            module_findings(modules@),
            reference_findings(files@, services@, opted_out, os_release@),
        );
    }
}

/// The directories that PAM loads modules from: the usual ones and those that were found.
pub fn pam_search_dirs(found: &Vec<String>) -> (r: Vec<String>)
    ensures
        paths::sorts(
            text::texts(r@),
            seq![
                "/lib/security"@,
                "/lib64/security"@,
                "/usr/lib/security"@,
                "/usr/lib64/security"@,
            ] + text::texts(found@),
            4 + found@.len() as int,
        ),
{
    let ghost usual = seq![
        "/lib/security"@,
        "/lib64/security"@,
        "/usr/lib/security"@,
        "/usr/lib64/security"@,
    ];
    let mut all: Vec<String> = Vec::new();
    all.push("/lib/security".to_owned());
    all.push("/lib64/security".to_owned());
    all.push("/usr/lib/security".to_owned());
    all.push("/usr/lib64/security".to_owned());
    proof {
        assert(text::texts(all@) =~= usual + text::texts(found@).take(0));
    }
    for i in 0..found.len()
        invariant
            usual.len() == 4,
            text::texts(all@) == usual + text::texts(found@).take(i as int),
    {
        let dir = found[i].clone();
        proof {
            text::lemma_texts_push(all@, dir);
            text::lemma_take_push(text::texts(found@), i as int);
        }
        all.push(dir);
        proof {
            assert(text::texts(all@) =~= usual + text::texts(found@).take(i as int + 1));
        }
    }
    proof {
        assert(text::texts(found@).take(found@.len() as int) =~= text::texts(found@));
        assert(text::texts(all@).len() == 4 + found@.len());
    }
    paths::sorted_paths(&all)
}

/// Where the two modules would stand in these directories.
pub open spec fn candidates_in(dirs: Seq<Seq<char>>) -> Seq<Seq<char>>
    decreases dirs.len(),
{
    if dirs.len() == 0 {
        seq![]
    } else {
        candidates_in(dirs.drop_last()).push(
            paths::path_joined(dirs.last(), "pam_gaze.so"@),
        ).push(paths::path_joined(dirs.last(), "pam_gaze_grosshack.so"@))
    }
}

/// The modules that these lines name by an absolute path.
pub open spec fn named_in(lines: Seq<Seq<char>>) -> Seq<Seq<char>>
    decreases lines.len(),
{
    if lines.len() == 0 {
        seq![]
    } else {
        named_in(lines.drop_last()) + pam::module_paths(
            text::words_of(pam::uncommented(lines.last()), CharClass::AsciiWhite),
        )
    }
}

pub open spec fn named_in_files(files: Seq<PamFile>) -> Seq<Seq<char>>
    decreases files.len(),
{
    if files.len() == 0 {
        seq![]
    } else {
        named_in_files(files.drop_last()) + named_in(text::lines_of(files.last().contents@))
    }
}

fn append_texts(all: &mut Vec<String>, more: Vec<String>)
    ensures
        text::texts(final(all)@) == text::texts(old(all)@) + text::texts(more@),
{
    let ghost added = more@;
    let mut rest = more;
    all.append(&mut rest);
    proof {
        assert(text::texts(all@) =~= text::texts(old(all)@) + text::texts(added));
    }
}

fn modules_named_in(contents: &str) -> (r: Vec<String>)
    ensures
        text::texts(r@) == named_in(text::lines_of(contents@)),
{
    let contents_chars = text::chars(contents);
    let lines = text::lines(contents_chars.as_slice());
    let ghost all = text::lines_of(contents@);
    let mut r: Vec<String> = Vec::new();
    proof {
        assert(text::texts(r@) =~= named_in(all.take(0)));
    }
    for i in 0..lines.len()
        invariant
            text::views(lines@) == all,
            text::texts(r@) == named_in(all.take(i as int)),
    {
        proof {
            assert(all[i as int] == lines@[i as int]@);
            text::lemma_take_push(all, i as int);
        }
        let line = text::string(lines[i]);
        append_texts(&mut r, pam::pam_line_module_paths(line.as_str()));
    }
    proof {
        assert(all.take(lines@.len() as int) =~= all);
    }
    r
}

/// Where a Gaze module may be installed: in a search directory, or where a stack names it by an
/// absolute path, as on distributions that never populate a system module directory.
pub fn pam_module_candidates(dirs: &Vec<String>, files: &Vec<PamFile>) -> (r: Vec<String>)
    ensures
        text::texts(r@) == candidates_in(text::texts(dirs@)) + named_in_files(files@),
{
    let mut r: Vec<String> = Vec::new();
    let ghost all = text::texts(dirs@);
    proof {
        assert(text::texts(r@) =~= candidates_in(all.take(0)));
    }
    for i in 0..dirs.len()
        invariant
            all == text::texts(dirs@),
            text::texts(r@) == candidates_in(all.take(i as int)),
    {
        let module = paths::join(dirs[i].as_str(), "pam_gaze.so");
        let grosshack = paths::join(dirs[i].as_str(), "pam_gaze_grosshack.so");
        proof {
            text::lemma_take_push(all, i as int);
            text::lemma_texts_push(r@, module);
            text::lemma_texts_push(r@.push(module), grosshack);
        }
        r.push(module);
        r.push(grosshack);
    }
    proof {
        assert(all.take(dirs@.len() as int) =~= all);
        assert(candidates_in(all) + named_in_files(files@.take(0)) =~= candidates_in(all));
    }
    for i in 0..files.len()
        invariant
            text::texts(r@) == candidates_in(all) + named_in_files(files@.take(i as int)),
    {
        proof {
            text::lemma_take_push(files@, i as int);
        }
        append_texts(&mut r, modules_named_in(files[i].contents.as_str()));
        proof {
            assert(text::texts(r@) =~= candidates_in(all) + named_in_files(
                files@.take(i as int + 1),
            ));
        }
    }
    proof {
        assert(files@.take(files@.len() as int) =~= files@);
    }
    r
}

/// The files that load Gaze are found in each part of a list by itself, and keep their order; a file is
/// among them exactly when a line of it loads the module.
pub proof fn files_are_found_by_parts(left: Seq<PamFile>, right: Seq<PamFile>, file: PamFile)
    ensures
        referencing(left + right) == referencing(left) + referencing(right),
        referencing(seq![file]) == (if pam::file_has_reference(file.contents@) {
            seq![file]
        } else {
            seq![]
        }),
        deprecated_paths(left + right) == deprecated_paths(left) + deprecated_paths(right),
        deprecated_paths(seq![file]) == (if pam::file_has_grosshack(file.contents@) {
            seq![file.path@]
        } else {
            seq![]
        }),
        insecure_files(left + right) == insecure_files(left) + insecure_files(right),
        insecure_files(seq![file]) == (if file.facts matches Some(facts)
            && system::unsafe_ownership(facts.uid, facts.mode) {
            seq![file.path@]
        } else {
            seq![]
        }),
        all_ordering_findings(left + right) == all_ordering_findings(left) + all_ordering_findings(
            right,
        ),
        all_ordering_findings(seq![file]) == ordering_findings(file),
        named_in_files(left + right) == named_in_files(left) + named_in_files(right),
        named_in_files(seq![file]) == named_in(text::lines_of(file.contents@)),
    decreases right.len(),
{
    let one = seq![file];
    let nothing = Seq::<PamFile>::empty();
    assert(one.drop_last() =~= nothing);
    assert(referencing(nothing) =~= seq![]);
    assert(deprecated_paths(nothing) =~= seq![]);
    assert(insecure_files(nothing) =~= seq![]);
    assert(all_ordering_findings(nothing) =~= seq![]);
    assert(named_in_files(nothing) =~= seq![]);
    assert(referencing(one) =~= (if pam::file_has_reference(file.contents@) {
        seq![file]
    } else {
        seq![]
    }));
    assert(all_ordering_findings(one) =~= ordering_findings(file));
    assert(named_in_files(one) =~= named_in(text::lines_of(file.contents@)));
    let all = left + right;
    if right.len() == 0 {
        assert(all =~= left);
        assert(right =~= nothing);
        assert(all_ordering_findings(left) + all_ordering_findings(right)
            =~= all_ordering_findings(left));
        assert(named_in_files(left) + named_in_files(right) =~= named_in_files(left));
    } else {
        files_are_found_by_parts(left, right.drop_last(), file);
        assert(all.drop_last() =~= left + right.drop_last());
        assert(all.last() == right.last());
        assert(referencing(all) =~= referencing(left) + referencing(right));
        assert(deprecated_paths(all) =~= deprecated_paths(left) + deprecated_paths(right));
        assert(insecure_files(all) =~= insecure_files(left) + insecure_files(right));
        assert(all_ordering_findings(all) =~= all_ordering_findings(left) + all_ordering_findings(
            right,
        ));
        assert(named_in_files(all) =~= named_in_files(left) + named_in_files(right));
    }
}

/// The modules that a file names are those of its lines, line by line, and a directory may hold either
/// of the two modules.
pub proof fn modules_are_named_line_by_line(
    left: Seq<Seq<char>>,
    right: Seq<Seq<char>>,
    one: Seq<char>,
)
    ensures
        named_in(left + right) == named_in(left) + named_in(right),
        named_in(seq![one]) == pam::module_paths(
            text::words_of(pam::uncommented(one), CharClass::AsciiWhite),
        ),
        candidates_in(left + right) == candidates_in(left) + candidates_in(right),
        candidates_in(seq![one]) == seq![
            paths::path_joined(one, "pam_gaze.so"@),
            paths::path_joined(one, "pam_gaze_grosshack.so"@),
        ],
    decreases right.len(),
{
    let nothing = Seq::<Seq<char>>::empty();
    assert(seq![one].drop_last() =~= nothing);
    assert(named_in(nothing) =~= seq![]);
    assert(candidates_in(nothing) =~= seq![]);
    assert(named_in(seq![one]) =~= pam::module_paths(
        text::words_of(pam::uncommented(one), CharClass::AsciiWhite),
    ));
    assert(candidates_in(seq![one]) =~= seq![
        paths::path_joined(one, "pam_gaze.so"@),
        paths::path_joined(one, "pam_gaze_grosshack.so"@),
    ]);
    let all = left + right;
    if right.len() == 0 {
        assert(all =~= left);
        assert(right =~= nothing);
        assert(named_in(left) + named_in(right) =~= named_in(left));
        assert(candidates_in(left) + candidates_in(right) =~= candidates_in(left));
    } else {
        modules_are_named_line_by_line(left, right.drop_last(), one);
        assert(all.drop_last() =~= left + right.drop_last());
        assert(all.last() == right.last());
        assert(named_in(all) =~= named_in(left) + named_in(right));
        assert(candidates_in(all) =~= candidates_in(left) + candidates_in(right));
    }
}

/// The module passes exactly when some path ends in its file name; where any module is installed, its
/// permissions pass exactly when none is insecure.
pub proof fn a_module_passes_only_where_it_can_be_loaded(modules: Seq<OwnedPath>)
    ensures
        ({
            let found = module_findings(modules);
            &&& found[0].level == report::Level::Pass <==> exists|i: int|
                0 <= i < modules.len() && text::after_last((#[trigger] modules[i]).path@, '/')
                    == "pam_gaze.so"@
            &&& found[0].level == report::Level::Error <==> !module_installed(modules)
            &&& found.len() == 2 <==> modules.len() > 0
            &&& found.len() <= 2
            &&& modules.len() > 0 ==> (found[1].level == report::Level::Pass <==> forall|i: int|
                0 <= i < modules.len() ==> ((#[trigger] modules[i]).facts matches Some(facts)
                    ==> facts.uid == 0 && facts.mode & 0o022 == 0))
            &&& modules.len() > 0 ==> (found[1].level == report::Level::Error <==> found[1].level
                != report::Level::Pass)
        }),
{
    lemma_insecure(modules);
}

proof fn lemma_insecure(modules: Seq<OwnedPath>)
    ensures
        system::insecure_paths(modules).len() == 0 <==> forall|i: int|
            0 <= i < modules.len() ==> ((#[trigger] modules[i]).facts matches Some(facts)
                ==> facts.uid == 0 && facts.mode & 0o022 == 0),
    decreases modules.len(),
{
    if modules.len() > 0 {
        let before = modules.drop_last();
        lemma_insecure(before);
        assert(modules[modules.len() - 1] == modules.last());
        assert forall|i: int| 0 <= i < before.len() implies #[trigger] before[i] == modules[i] by {}
        if system::insecure_paths(modules).len() == 0 {
            assert forall|i: int| 0 <= i < modules.len() implies ((
            #[trigger] modules[i]).facts matches Some(facts) ==> facts.uid == 0 && facts.mode
                & 0o022 == 0) by {
                if i < before.len() {
                    assert(before[i] == modules[i]);
                }
            }
        }
    }
}

/// A stack without Gaze is one warning. A stack with it names its files first, and passes on to their
/// permissions, their modules, their order, and the services for elevation and for prompts.
pub proof fn a_stack_without_gaze_is_one_warning(
    files: Seq<PamFile>,
    services: Seq<Service>,
    opted_out: bool,
    os_release: Seq<char>,
)
    ensures
        ({
            let found = reference_findings(files, services, opted_out, os_release);
            let references = referencing(files);
            &&& found[0].level == report::Level::Warning <==> references.len() == 0
            &&& references.len() == 0 ==> found.len() == 1
            &&& references.len() > 0 ==> {
                &&& found[0].level == report::Level::Pass
                &&& found[1].level == report::Level::Pass <==> insecure_files(references).len() == 0
                &&& found[1].level == report::Level::Error <==> insecure_files(references).len() > 0
                &&& found.skip(2) == deprecated_findings(files) + all_ordering_findings(references)
                    + elevation_findings(services, opted_out, os_release) + polkit_findings(
                    services,
                )
            }
        }),
{
    let found = reference_findings(files, services, opted_out, os_release);
    let references = referencing(files);
    if references.len() > 0 {
        assert(found.skip(2) =~= deprecated_findings(files) + all_ordering_findings(references)
            + elevation_findings(services, opted_out, os_release) + polkit_findings(services));
    }
}

/// A file is warned of for its order exactly when some module competes above Gaze, and for its retry
/// exactly when that is misplaced; each warning names the file.
pub proof fn a_file_is_warned_of_for_its_order(file: PamFile)
    ensures
        ({
            let lines = pam::auth_lines(text::lines_of(file.contents@));
            let found = ordering_findings(file);
            &&& found.len() == (if pam::competitors_above(lines).len() > 0 {
                1int
            } else {
                0int
            }) + (if pam::retry_is_misplaced(lines) {
                1int
            } else {
                0int
            })
            &&& forall|i: int| 0 <= i < found.len() ==> (#[trigger] found[i]).level == report::Level::Warning
            &&& pam::competitors_above(lines).len() > 0 ==> found[0].name == "PAM ordering"@
            &&& pam::retry_is_misplaced(lines) ==> found.last().name == "PAM retry ordering"@
        }),
{
}

/// The modules that are no longer wanted are warned of exactly where some file names one.
pub proof fn deprecated_modules_are_warned_of(files: Seq<PamFile>)
    ensures
        deprecated_findings(files).len() == (if deprecated_paths(files).len() > 0 {
            1int
        } else {
            0int
        }),
        deprecated_paths(files).len() > 0 ==> deprecated_findings(files)[0].level == report::Level::Warning,
{
}

/// Elevation passes exactly when its service exists and reaches Gaze through at most two files that it
/// names. Where it does not reach it, it is off where it was opted out, and a warning otherwise.
pub proof fn elevation_passes_only_where_it_reaches_gaze(
    services: Seq<Service>,
    opted_out: bool,
    os_release: Seq<char>,
)
    ensures
        ({
            let found = elevation_findings(services, opted_out, os_release);
            let reaches = pam::reaches(services, "sudo"@, 2);
            &&& found.len() == 0 <==> pam::contents_of(services, "sudo"@) is None
            &&& found.len() <= 1
            &&& found.len() == 1 ==> {
                &&& found[0].level == report::Level::Pass <==> reaches
                &&& found[0].level == report::Level::Off <==> !reaches && opted_out
                &&& found[0].level == report::Level::Warning <==> !reaches && !opted_out
            }
        }),
        ({
            let found = polkit_findings(services);
            let reaches = pam::reaches(services, "polkit-1"@, 2);
            &&& found.len() == 0 <==> pam::contents_of(services, "polkit-1"@) is None
            &&& found.len() <= 1
            &&& found.len() == 1 ==> {
                &&& found[0].level == report::Level::Pass <==> reaches
                &&& found[0].level == report::Level::Warning <==> !reaches
            }
        }),
{
}

/// A system is advised by the family that its release names, in whatever case, and a system of none
/// gets advice for any.
pub proof fn advice_goes_by_the_family(os_release: Seq<char>)
    ensures
        ({
            let name = text::lowered(os_release);
            let hint = shared_stack_hint(os_release);
            let suse = text::mentions(name, "suse"@);
            let fedora = text::mentions(name, "fedora"@) || text::mentions(name, "rhel"@)
                || text::mentions(name, "centos"@);
            let debian = text::mentions(name, "debian"@) || text::mentions(name, "ubuntu"@);
            let arch = text::mentions(name, "arch"@) || text::mentions(name, "manjaro"@)
                || text::mentions(name, "omarchy"@);
            &&& suse ==> hint
                == "Run `sudo pam-config --add --gaze` then `sudo pam-config --update`, and confirm pam_gaze.so appears in /etc/pam.d/common-auth. See https://gaze.gundulabs.com/guide/pam"@
            &&& fedora && !suse ==> hint
                == "Run `sudo authselect select gaze with-silent-lastlog --force`. See https://gaze.gundulabs.com/guide/pam"@
            &&& debian && !fedora && !suse ==> hint
                == "Run `sudo pam-auth-update --package` and enable the Gaze profile. See https://gaze.gundulabs.com/guide/pam"@
            &&& arch && !debian && !fedora && !suse ==> hint
                == "Add 'auth        sufficient    pam_gaze.so' above the first auth line of /etc/pam.d/sudo. See https://gaze.gundulabs.com/guide/pam"@
            &&& !arch && !debian && !fedora && !suse ==> hint
                == "Add 'auth        sufficient    pam_gaze.so' above the first auth line of your shared auth stack (/etc/pam.d/system-auth, or /etc/pam.d/common-auth on openSUSE). See https://gaze.gundulabs.com/guide/pam"@
        }),
{
}

} // verus!
