//! Everything that is checked of the desktop that runs.

use crate::doctor::greeter::{GdmCameraPolicy, GdmGreeterReadiness};
use crate::doctor::{desktop, greeter, kde};
use crate::pam_stack::hyprlock_selects_gaze;
use crate::report::{Finding, Report};
use crate::{pam_stack, report, text};
use vstd::prelude::*;

verus! {

/// What was gathered of a GNOME session and its login screen.
pub struct GnomeFacts {
    /// What `gnome-extensions list --enabled` answered.
    pub enabled_extensions: Result<(bool, String), String>,
    pub installed: bool,
    /// What the extension's own setting reads.
    pub setting: Result<(bool, String), String>,
    pub override_exists: bool,
    /// The value that GDM itself sees.
    pub dconf_face_auth: Option<bool>,
    pub readiness: GdmGreeterReadiness,
    pub selinux_enforcing: bool,
    pub camera_policy: GdmCameraPolicy,
    pub policy_file: bool,
}

pub open spec fn gnome_findings(facts: GnomeFacts) -> Seq<Finding> {
    seq![desktop::extension_finding(facts.enabled_extensions, facts.installed)] + (seq![
        desktop::lock_screen_finding(facts.setting),
    ] + (seq![
        greeter::login_finding(facts.dconf_face_auth, facts.override_exists, facts.readiness@),
    ] + (if facts.dconf_face_auth == Some(true) || facts.override_exists {
        greeter::selinux_findings(facts.selinux_enforcing, facts.camera_policy, facts.policy_file)
    } else {
        seq![]
    })))
}

pub fn check_gnome(report: &mut Report, facts: &GnomeFacts)
    ensures
        final(report)@ == old(report)@ + gnome_findings(*facts),
{
    let ghost start = report@;
    desktop::check_gnome_extension(report, &facts.enabled_extensions, facts.installed);
    desktop::check_gnome_lock_screen(report, &facts.setting);
    greeter::check_gdm_login(
        report,
        facts.dconf_face_auth,
        facts.override_exists,
        &facts.readiness,
    );
    let ghost a = seq![desktop::extension_finding(facts.enabled_extensions, facts.installed)];
    let ghost b = seq![desktop::lock_screen_finding(facts.setting)];
    let ghost c = seq![
        greeter::login_finding(facts.dconf_face_auth, facts.override_exists, facts.readiness@),
    ];
    let enabled = match facts.dconf_face_auth {
        Some(value) => value,
        None => false,
    };
    if enabled || facts.override_exists {
        greeter::check_gdm_selinux(
            report,
            facts.selinux_enforcing,
            &facts.camera_policy,
            facts.policy_file,
        );
        proof {
            let d = greeter::selinux_findings(
                facts.selinux_enforcing,
                facts.camera_policy,
                facts.policy_file,
            );
            report::lemma_then(start + a + b, c, d);
            report::lemma_then(start + a, b, c + d);
            report::lemma_then(start, a, b + (c + d));
        }
    } else {
        proof {
            report::lemma_nothing(c);
            report::lemma_then(start + a, b, c);
            report::lemma_then(start, a, b + c);
        }
    }
}

pub open spec fn hyprlock_finding(contents: Option<Seq<char>>) -> Finding {
    if contents is Some && exists|i: int|
        0 <= i < text::lines_of(contents->0).len() && pam_stack::selects_gaze(
            #[trigger] text::lines_of(contents->0)[i],
        ) {
        report::passing("hyprlock"@, "configured to use a Gaze PAM service"@)
    } else {
        report::warned(
            "hyprlock"@,
            "the current user's hyprlock.conf does not select a Gaze PAM service"@,
            "Set `module = hyprlock-gaze` in the hyprlock `auth { pam { ... } }` block."@,
        )
    }
}

pub fn check_hyprlock(report: &mut Report, contents: Option<&str>)
    ensures
        final(report)@ == old(report)@ + seq![hyprlock_finding(text::optional_str(contents))],
{
    let configured = match contents {
        Some(contents) => hyprlock_selects_gaze(contents),
        None => false,
    };
    if configured {
        report.pass("hyprlock", "configured to use a Gaze PAM service");
    } else {
        report.warning(
            "hyprlock",
            "the current user's hyprlock.conf does not select a Gaze PAM service",
            "Set `module = hyprlock-gaze` in the hyprlock `auth { pam { ... } }` block.",
        );
    }
}

/// Where hyprlock's configuration lies: under the user's configuration directory.
pub fn hyprlock_path(config_home: Option<&str>, home: Option<&str>) -> (r: Option<String>)
    ensures
        text::optional(r) == (match text::optional_str(config_home) {
            Some(dir) => Some(crate::paths::path_joined(dir, "hypr/hyprlock.conf"@)),
            None => match text::optional_str(home) {
                Some(home) => Some(
                    crate::paths::path_joined(
                        crate::paths::path_joined(home, ".config"@),
                        "hypr/hyprlock.conf"@,
                    ),
                ),
                None => None,
            },
        }),
{
    match config_home {
        Some(dir) => Some(crate::paths::join(dir, "hypr/hyprlock.conf")),
        None => match home {
            Some(home) => {
                let dir = crate::paths::join(home, ".config");
                Some(crate::paths::join(dir.as_str(), "hypr/hyprlock.conf"))
            },
            None => None,
        },
    }
}

/// The files of the slots that the KDE greeters start up front, where they exist.
pub struct KdeFacts {
    pub fingerprint: Option<String>,
    pub smartcard: Option<String>,
    pub plasmalogin_face: Option<String>,
}

pub open spec fn kde_findings(facts: KdeFacts) -> Seq<Finding> {
    seq![
        kde::kde_lock_finding(text::optional(facts.fingerprint), text::optional(facts.smartcard)),
        kde::greeter_finding(text::optional(facts.plasmalogin_face)),
    ]
}

pub(crate) fn borrowed(s: &Option<String>) -> (r: Option<&str>)
    ensures
        text::optional_str(r) == text::optional(*s),
{
    match s {
        Some(s) => Some(s.as_str()),
        None => None,
    }
}

pub fn check_kde(report: &mut Report, facts: &KdeFacts)
    ensures
        final(report)@ == old(report)@ + kde_findings(*facts),
{
    kde::check_kde_lock_screen(report, borrowed(&facts.fingerprint), borrowed(&facts.smartcard));
    kde::check_kde_login_greeter(report, borrowed(&facts.plasmalogin_face));
    proof {
        assert(report@ =~= old(report)@ + kde_findings(*facts));
    }
}

/// Whether a desktop is a GNOME session, whose shell and login screen are then looked at.
pub fn is_gnome(name: &str) -> (r: bool)
    ensures
        r == text::mentions(name@, "gnome"@),
{
    text::contains(text::chars(name).as_slice(), "gnome")
}

/// What is said of a desktop: GNOME's, Hyprland's and KDE's checks, as far as its name calls for
/// them.
pub open spec fn desktop_findings(
    name: Seq<char>,
    gnome: GnomeFacts,
    hyprlock: Option<Seq<char>>,
    plasma: KdeFacts,
) -> Seq<Finding> {
    (if text::mentions(name, "gnome"@) {
        gnome_findings(gnome)
    } else {
        seq![]
    }) + ((if text::mentions(name, "hyprland"@) {
        seq![hyprlock_finding(hyprlock)]
    } else {
        seq![]
    }) + (if text::mentions(name, "kde"@) || text::mentions(name, "plasma"@) {
        kde_findings(plasma)
    } else {
        seq![]
    }))
}

pub fn check_desktop_integration(
    report: &mut Report,
    name: &str,
    gnome: &GnomeFacts,
    hyprlock: Option<&str>,
    plasma: &KdeFacts,
)
    ensures
        final(report)@ == old(report)@ + desktop_findings(
            name@,
            *gnome,
            text::optional_str(hyprlock),
            *plasma,
        ),
{
    let name_chars = text::chars(name);
    let ghost start = report@;
    let ghost empty = Seq::<Finding>::empty();
    let ghost mut a = empty;
    let ghost mut b = empty;
    let ghost mut c = empty;
    proof {
        report::lemma_nothing(start);
    }
    if is_gnome(name) {
        check_gnome(report, gnome);
        proof {
            a = gnome_findings(*gnome);
        }
    }
    proof {
        report::lemma_nothing(report@);
    }
    if text::contains(name_chars.as_slice(), "hyprland") {
        check_hyprlock(report, hyprlock);
        proof {
            b = seq![hyprlock_finding(text::optional_str(hyprlock))];
        }
    }
    proof {
        report::lemma_nothing(report@);
    }
    if text::contains(name_chars.as_slice(), "kde") || text::contains(
        name_chars.as_slice(),
        "plasma",
    ) {
        check_kde(report, plasma);
        proof {
            c = kde_findings(*plasma);
        }
    }
    proof {
        assert(report@ == start + a + b + c);
        report::lemma_then(start + a, b, c);
        report::lemma_then(start, a, b + c);
    }
}

/// Each desktop is examined exactly where its name is among those of the session, and several at once
/// where several are.
pub proof fn every_desktop_named_is_examined(
    name: Seq<char>,
    gnome: GnomeFacts,
    hyprlock: Option<Seq<char>>,
    plasma: KdeFacts,
)
    ensures
        ({
            let found = desktop_findings(name, gnome, hyprlock, plasma);
            let a = text::mentions(name, "gnome"@);
            let b = text::mentions(name, "hyprland"@);
            let c = text::mentions(name, "kde"@) || text::mentions(name, "plasma"@);
            &&& a && b && c ==> found == gnome_findings(gnome) + seq![hyprlock_finding(hyprlock)]
                + kde_findings(plasma)
            &&& a && !b && !c ==> found == gnome_findings(gnome)
            &&& !a && b && !c ==> found == seq![hyprlock_finding(hyprlock)]
            &&& !a && !b && c ==> found == kde_findings(plasma)
            &&& a && b && !c ==> found == gnome_findings(gnome) + seq![hyprlock_finding(hyprlock)]
            &&& a && !b && c ==> found == gnome_findings(gnome) + kde_findings(plasma)
            &&& !a && b && c ==> found == seq![hyprlock_finding(hyprlock)] + kde_findings(plasma)
            &&& !a && !b && !c ==> found.len() == 0
        }),
{
    let found = desktop_findings(name, gnome, hyprlock, plasma);
    let nothing = Seq::<Finding>::empty();
    assert(nothing + nothing =~= nothing);
    assert(gnome_findings(gnome) + (seq![hyprlock_finding(hyprlock)] + kde_findings(plasma))
        =~= gnome_findings(gnome) + seq![hyprlock_finding(hyprlock)] + kde_findings(plasma));
    assert(gnome_findings(gnome) + nothing =~= gnome_findings(gnome));
    assert(nothing + kde_findings(plasma) =~= kde_findings(plasma));
    assert(seq![hyprlock_finding(hyprlock)] + nothing =~= seq![hyprlock_finding(hyprlock)]);
    assert(nothing + seq![hyprlock_finding(hyprlock)] =~= seq![hyprlock_finding(hyprlock)]);
    assert(nothing + (seq![hyprlock_finding(hyprlock)] + kde_findings(plasma)) =~= seq![
        hyprlock_finding(hyprlock),
    ] + kde_findings(plasma));
}

/// GNOME is examined for its extension, its lock screen and its login, and for the camera's policy
/// exactly where the login may use faces.
pub proof fn the_camera_s_policy_matters_only_where_login_uses_faces(facts: GnomeFacts)
    ensures
        ({
            let found = gnome_findings(facts);
            let used = facts.dconf_face_auth == Some(true) || facts.override_exists;
            &&& found[0] == desktop::extension_finding(facts.enabled_extensions, facts.installed)
            &&& found[1] == desktop::lock_screen_finding(facts.setting)
            &&& found[2] == greeter::login_finding(
                facts.dconf_face_auth,
                facts.override_exists,
                facts.readiness@,
            )
            &&& found.len() == 4 <==> used && facts.selinux_enforcing
            &&& found.len() == 3 <==> !used || !facts.selinux_enforcing
            &&& found.len() == 4 ==> found[3] == greeter::policy_finding(
                facts.camera_policy,
                facts.policy_file,
            )
        }),
{
}

/// The locker passes exactly when some line of its configuration selects a Gaze service, whichever
/// line that is.
pub proof fn a_locker_passes_only_where_a_line_selects_gaze(contents: Seq<char>, i: int)
    requires
        0 <= i < text::lines_of(contents).len(),
    ensures
        hyprlock_finding(None).level == report::Level::Warning,
        pam_stack::selects_gaze(text::lines_of(contents)[i]) ==> hyprlock_finding(
            Some(contents),
        ).level == report::Level::Pass,
        hyprlock_finding(Some(contents)).level != report::Level::Pass ==> hyprlock_finding(
            Some(contents),
        ).level == report::Level::Warning && !pam_stack::selects_gaze(text::lines_of(contents)[i]),
{
    let given = Some(contents);
    assert(given->0 == contents);
    if pam_stack::selects_gaze(text::lines_of(contents)[i]) {
        assert(pam_stack::selects_gaze(text::lines_of(given->0)[i]));
    }
}

/// A configuration without lines selects nothing.
pub proof fn an_empty_configuration_selects_nothing()
    ensures
        hyprlock_finding(Some(seq![])).level == report::Level::Warning,
{
    text::lines_end_at_line_feeds(seq![], seq![]);
}

/// KDE is examined for its lock screen and its greeter, each by its own slots.
pub proof fn kde_is_examined_slot_by_slot(facts: KdeFacts)
    ensures
        kde_findings(facts).len() == 2,
        kde_findings(facts)[0] == kde::kde_lock_finding(
            text::optional(facts.fingerprint),
            text::optional(facts.smartcard),
        ),
        kde_findings(facts)[1] == kde::greeter_finding(text::optional(facts.plasmalogin_face)),
{
}

} // verus!
