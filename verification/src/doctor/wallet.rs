//! Checks of the stacks and records that unlock a desktop keyring after a face login.

use crate::config::{Config, CONFIG_PATH};
use crate::doctor::greeter::GDM_FACE_PAM_SERVICE;
use crate::doctor::system;
use crate::pam::Service;
use crate::pam_stack::{gdm_face_stack_passes_the_token, kde_login_stack_passes_the_token};
use crate::report::{Finding, Report};
use crate::{pam, pam_stack, paths, report, text};
use vstd::prelude::*;

verus! {

/// Whether a user has an enrolled record: only root can tell, and only of a user that exists.
pub fn keyring_record_state(root: bool, uid: Option<u32>, exists: bool) -> (r: Option<bool>)
    ensures
        r == (if root && uid is Some {
            Some(exists)
        } else {
            None
        }),
{
    if root && uid.is_some() {
        Some(exists)
    } else {
        None
    }
}

/// The stack hands the token on to GNOME Keyring.
pub open spec fn hands_token(contents: Seq<char>) -> bool {
    pam_stack::gnome_stack(pam_stack::entries_of(text::lines_of(contents)))
}

pub open spec fn record_finding(username: Seq<char>, state: Option<bool>) -> Finding {
    match state {
        Some(true) => report::passing(
            "Keyring"@,
            "a TPM-protected keyring credential is enrolled for "@ + username,
        ),
        Some(false) => report::warned(
            "Keyring"@,
            "GNOME Keyring unlock is enabled but "@ + username + " has no enrolled credential"@,
            "Run `sudo gaze keyring --user "@ + username + "`."@,
        ),
        None => report::warned(
            "Keyring"@,
            "the "@ + GDM_FACE_PAM_SERVICE@ + " stack passes the token, but whether "@ + username
                + " has an enrolled credential could not be checked without root"@,
            "Run `sudo gaze doctor` to check the credential record."@,
        ),
    }
}

pub fn report_keyring_record(report: &mut Report, username: &str, state: Option<bool>)
    ensures
        final(report)@ == old(report)@ + seq![record_finding(username@, state)],
{
    match state {
        Some(true) => {
            let message = text::cat2(
                "a TPM-protected keyring credential is enrolled for ",
                username,
            );
            report.pass("Keyring", message.as_str());
        },
        Some(false) => {
            let message = text::cat3(
                "GNOME Keyring unlock is enabled but ",
                username,
                " has no enrolled credential",
            );
            let fix = text::cat3("Run `sudo gaze keyring --user ", username, "`.");
            report.warning("Keyring", message.as_str(), fix.as_str());
        },
        None => {
            let message = text::cat5(
                "the ",
                GDM_FACE_PAM_SERVICE,
                " stack passes the token, but whether ",
                username,
                " has an enrolled credential could not be checked without root",
            );
            report.warning(
                "Keyring",
                message.as_str(),
                "Run `sudo gaze doctor` to check the credential record.",
            );
        },
    }
}

/// What is said of GNOME Keyring's unlock. `unusable` says why the settings cannot work together.
pub open spec fn keyring_finding(
    username: Seq<char>,
    config: Config,
    unusable: Option<Seq<char>>,
    stack: Option<Seq<char>>,
    state: Option<bool>,
) -> Finding {
    if !config.storage.unlock_gnome_keyring {
        report::switched_off(
            "Keyring"@,
            "GNOME Keyring unlock after a GDM face login is off"@,
            "Turn it on: set `unlock_gnome_keyring = true` under [storage] in "@ + CONFIG_PATH@
                + " (it also needs `encrypt_templates = true` and [liveness] `enabled = true`), restart gazed, then run `sudo gaze keyring`."@,
        )
    } else if unusable is Some {
        report::failing(
            "Keyring"@,
            "GNOME Keyring unlock is enabled but unusable: "@ + unusable->0,
            "Set `encrypt_templates = true` under [storage] and `enabled = true` under [liveness] in "@
                + CONFIG_PATH@ + ", or turn off `unlock_gnome_keyring`, then restart gazed."@,
        )
    } else {
        match stack {
            None => report::failing(
                "Keyring"@,
                "GNOME Keyring unlock is enabled but /etc/pam.d/gdm-face is missing"@,
                "Install the Gaze GNOME extension package, which ships the gdm-face PAM stack."@,
            ),
            Some(contents) => if !hands_token(contents) {
                report::failing(
                    "Keyring"@,
                    "/etc/pam.d/gdm-face does not have the packaged keyring hand-off and session hook"@,
                    "This file is preserved across upgrades. Replace it with the packaged stack (look for /etc/pam.d/gdm-face.rpmnew, .pacnew or .dpkg-dist), or edit it so pam_gaze.so uses `[success=1 default=ignore]` followed by `auth requisite pam_deny.so` and `auth optional pam_gnome_keyring.so use_authtok`, plus `session optional pam_gnome_keyring.so auto_start`."@,
                )
            } else {
                record_finding(username, state)
            },
        }
    }
}

pub fn check_keyring(
    report: &mut Report,
    username: &str,
    config: Option<&Config>,
    unusable: Option<&str>,
    stack: Option<&str>,
    state: Option<bool>,
)
    ensures
        final(report)@ == old(report)@ + (match system::given(config) {
            None => seq![],
            Some(config) => seq![
                keyring_finding(
                    username@,
                    config,
                    text::optional_str(unusable),
                    text::optional_str(stack),
                    state,
                ),
            ],
        }),
{
    let config = match config {
        Some(config) => config,
        None => {
            proof {
                report::lemma_nothing(report@);
            }
            return;
        },
    };
    if !config.storage.unlock_gnome_keyring {
        let how = text::cat3(
            "Turn it on: set `unlock_gnome_keyring = true` under [storage] in ",
            CONFIG_PATH,
            " (it also needs `encrypt_templates = true` and [liveness] `enabled = true`), restart gazed, then run `sudo gaze keyring`.",
        );
        report.off("Keyring", "GNOME Keyring unlock after a GDM face login is off", how.as_str());
        return;
    }
    if let Some(why) = unusable {
        let message = text::cat2("GNOME Keyring unlock is enabled but unusable: ", why);
        let fix = text::cat3(
            "Set `encrypt_templates = true` under [storage] and `enabled = true` under [liveness] in ",
            CONFIG_PATH,
            ", or turn off `unlock_gnome_keyring`, then restart gazed.",
        );
        report.error("Keyring", message.as_str(), fix.as_str());
        return;
    }
    match stack {
        None => {
            report.error(
                "Keyring",
                "GNOME Keyring unlock is enabled but /etc/pam.d/gdm-face is missing",
                "Install the Gaze GNOME extension package, which ships the gdm-face PAM stack.",
            );
        },
        Some(contents) => {
            if !gdm_face_stack_passes_the_token(contents) {
                report.error(
                    "Keyring",
                    "/etc/pam.d/gdm-face does not have the packaged keyring hand-off and session hook",
                    "This file is preserved across upgrades. Replace it with the packaged stack (look for /etc/pam.d/gdm-face.rpmnew, .pacnew or .dpkg-dist), or edit it so pam_gaze.so uses `[success=1 default=ignore]` followed by `auth requisite pam_deny.so` and `auth optional pam_gnome_keyring.so use_authtok`, plus `session optional pam_gnome_keyring.so auto_start`.",
                );
            } else {
                report_keyring_record(report, username, state);
            }
        },
    }
}

/// The stack hands the token on to KWallet.
pub open spec fn hands_wallet_token(contents: Seq<char>) -> bool {
    pam_stack::kde_stack(pam_stack::entries_of(text::lines_of(contents)))
}

pub open spec fn wallet_service_warning(name: Seq<char>) -> Finding {
    report::warned(
        "KWallet"@,
        name + " lacks the managed KWallet handoff/session hook"@,
        "Run `sudo gaze-kde-pam enable-login`. Custom PAM entries must use sequential mode and pass the token to pam_kwallet5 before ending authentication."@,
    )
}

/// What is said of one login service, where it exists.
pub open spec fn login_findings(services: Seq<Service>, name: Seq<char>) -> Seq<Finding> {
    match pam::contents_of(services, name) {
        Some(contents) => report::only_if(
            !hands_wallet_token(contents),
            wallet_service_warning(name),
        ),
        None => seq![],
    }
}

/// The supported login services whose stack does not hand the token on.
pub open spec fn wallet_warnings(services: Seq<Service>) -> Seq<Finding> {
    login_findings(services, "sddm"@) + (login_findings(services, "plasmalogin"@) + login_findings(
        services,
        "plasmalogin-fingerprint"@,
    ))
}

/// One of the supported login services exists.
pub open spec fn has_login(services: Seq<Service>) -> bool {
    pam::contents_of(services, "sddm"@) is Some || pam::contents_of(services, "plasmalogin"@) is Some
        || pam::contents_of(services, "plasmalogin-fingerprint"@) is Some
}

pub open spec fn wallet_record_finding(username: Seq<char>, state: Option<bool>) -> Finding {
    match state {
        Some(true) => report::passing(
            "KWallet"@,
            "a TPM-protected KWallet credential is enrolled for "@ + username,
        ),
        Some(false) => report::warned(
            "KWallet"@,
            username + " has no enrolled KWallet credential"@,
            "Run `sudo gaze keyring --kwallet --user "@ + username + "`."@,
        ),
        None => report::warned(
            "KWallet"@,
            "KWallet enrollment could not be checked without root"@,
            "Run `sudo gaze doctor` to check the credential record."@,
        ),
    }
}

/// What is said of KWallet's unlock.
pub open spec fn wallet_findings(
    username: Seq<char>,
    config: Config,
    unusable: Option<Seq<char>>,
    module_found: bool,
    services: Seq<Service>,
    state: Option<bool>,
) -> Seq<Finding> {
    if !config.storage.unlock_kwallet {
        seq![
            report::switched_off(
                "KWallet"@,
                "KWallet unlock after a KDE face login is off"@,
                "Enable KWallet unlock in `gaze config`, then run `gaze keyring --kwallet` and `sudo gaze-kde-pam enable-login`."@,
            ),
        ]
    } else if unusable is Some {
        seq![
            report::failing(
                "KWallet"@,
                "KWallet unlock is enabled but unusable: "@ + unusable->0,
                "Enable TPM template encryption and liveness, or disable KWallet unlock in `gaze config`."@,
            ),
        ]
    } else {
        report::only_if(
            !module_found,
            report::warned(
                "KWallet"@,
                "pam_kwallet5.so was not found"@,
                "Install your distribution's KWallet PAM package (kwallet-pam or libpam-kwallet5)."@,
            ),
        ) + (wallet_warnings(services) + seq![
            if !has_login(services) {
                report::failing(
                    "KWallet"@,
                    "No supported KDE login PAM service was found"@,
                    "Install SDDM or Plasma Login Manager and run `sudo gaze-kde-pam enable-login`."@,
                )
            } else {
                wallet_record_finding(username, state)
            },
        ])
    }
}

fn check_login(report: &mut Report, services: &Vec<Service>, name: &'static str) -> (r: bool)
    ensures
        final(report)@ == old(report)@ + login_findings(services@, name@),
        r == (pam::contents_of(services@, name@) is Some),
{
    let at = match pam::find_service(services, name) {
        Some(at) => at,
        None => {
            proof {
                report::lemma_nothing(report@);
            }
            return false;
        },
    };
    let passes = kde_login_stack_passes_the_token(services[at].contents.as_str());
    let message = text::cat2(name, " lacks the managed KWallet handoff/session hook");
    report.warning_if(
        !passes,
        "KWallet",
        message.as_str(),
        "Run `sudo gaze-kde-pam enable-login`. Custom PAM entries must use sequential mode and pass the token to pam_kwallet5 before ending authentication.",
    );
    true
}

/// Checks the supported login services, and says whether there is one.
fn check_wallet_services(report: &mut Report, services: &Vec<Service>) -> (r: bool)
    ensures
        final(report)@ == old(report)@ + wallet_warnings(services@),
        r == has_login(services@),
{
    let ghost start = report@;
    let sddm = check_login(report, services, "sddm");
    let plasma = check_login(report, services, "plasmalogin");
    let slot = check_login(report, services, "plasmalogin-fingerprint");
    proof {
        let a = login_findings(services@, "sddm"@);
        let b = login_findings(services@, "plasmalogin"@);
        let c = login_findings(services@, "plasmalogin-fingerprint"@);
        report::lemma_then(start + a, b, c);
        report::lemma_then(start, a, b + c);
    }
    sddm || plasma || slot
}

fn report_wallet_record(report: &mut Report, username: &str, state: Option<bool>)
    ensures
        final(report)@ == old(report)@ + seq![wallet_record_finding(username@, state)],
{
    match state {
        Some(true) => {
            let message = text::cat2(
                "a TPM-protected KWallet credential is enrolled for ",
                username,
            );
            report.pass("KWallet", message.as_str());
        },
        Some(false) => {
            let message = text::cat2(username, " has no enrolled KWallet credential");
            let fix = text::cat3("Run `sudo gaze keyring --kwallet --user ", username, "`.");
            report.warning("KWallet", message.as_str(), fix.as_str());
        },
        None => {
            report.warning(
                "KWallet",
                "KWallet enrollment could not be checked without root",
                "Run `sudo gaze doctor` to check the credential record.",
            );
        },
    }
}

/// Where the KWallet module would stand in a search directory.
pub fn wallet_module_path(dir: &str) -> (r: String)
    ensures
        r@ == paths::path_joined(dir@, "pam_kwallet5.so"@),
{
    paths::join(dir, "pam_kwallet5.so")
}

pub fn check_kwallet(
    report: &mut Report,
    username: &str,
    config: Option<&Config>,
    unusable: Option<&str>,
    module_found: bool,
    services: &Vec<Service>,
    state: Option<bool>,
)
    ensures
        final(report)@ == old(report)@ + (match system::given(config) {
            None => seq![],
            Some(config) => wallet_findings(
                username@,
                config,
                text::optional_str(unusable),
                module_found,
                services@,
                state,
            ),
        }),
{
    let config = match config {
        Some(config) => config,
        None => {
            proof {
                report::lemma_nothing(report@);
            }
            return;
        },
    };
    if !config.storage.unlock_kwallet {
        report.off(
            "KWallet",
            "KWallet unlock after a KDE face login is off",
            "Enable KWallet unlock in `gaze config`, then run `gaze keyring --kwallet` and `sudo gaze-kde-pam enable-login`.",
        );
        return;
    }
    if let Some(why) = unusable {
        let message = text::cat2("KWallet unlock is enabled but unusable: ", why);
        report.error(
            "KWallet",
            message.as_str(),
            "Enable TPM template encryption and liveness, or disable KWallet unlock in `gaze config`.",
        );
        return;
    }
    let ghost start = report@;
    report.warning_if(
        !module_found,
        "KWallet",
        "pam_kwallet5.so was not found",
        "Install your distribution's KWallet PAM package (kwallet-pam or libpam-kwallet5).",
    );
    let ghost a = report::only_if(
        !module_found,
        report::warned(
            "KWallet"@,
            "pam_kwallet5.so was not found"@,
            "Install your distribution's KWallet PAM package (kwallet-pam or libpam-kwallet5)."@,
        ),
    );
    let found = check_wallet_services(report, services);
    let ghost b = wallet_warnings(services@);
    let ghost middle = report@;
    if !found {
        report.error(
            "KWallet",
            "No supported KDE login PAM service was found",
            "Install SDDM or Plasma Login Manager and run `sudo gaze-kde-pam enable-login`.",
        );
    } else {
        report_wallet_record(report, username, state);
    }
    proof {
        let last = if !has_login(services@) {
            report::failing(
                "KWallet"@,
                "No supported KDE login PAM service was found"@,
                "Install SDDM or Plasma Login Manager and run `sudo gaze-kde-pam enable-login`."@,
            )
        } else {
            wallet_record_finding(username@, state)
        };
        assert(report@ == middle + seq![last]);
        report::lemma_then(start + a, b, seq![last]);
        report::lemma_then(start, a, b + seq![last]);
    }
}

/// A credential passes exactly when it is enrolled; one that is not, or could not be looked up, is a
/// warning, and the two are told apart.
pub proof fn a_credential_passes_only_where_it_is_enrolled(username: Seq<char>, state: Option<bool>)
    ensures
        record_finding(username, state).level == report::Level::Pass <==> state == Some(true),
        record_finding(username, state).level == report::Level::Warning <==> state != Some(true),
        wallet_record_finding(username, state).level == report::Level::Pass <==> state == Some(true),
        wallet_record_finding(username, state).level == report::Level::Warning <==> state != Some(
            true,
        ),
        record_finding(username, Some(false)).fix == Some(
            "Run `sudo gaze keyring --user "@ + username + "`."@,
        ),
        wallet_record_finding(username, Some(false)).fix == Some(
            "Run `sudo gaze keyring --kwallet --user "@ + username + "`."@,
        ),
{
}

/// The keyring is off exactly where it is not asked for. Where it is, it is an error unless the
/// configuration can be used and the login's stack hands the password on; only then does the
/// credential count.
pub proof fn the_keyring_is_judged_as_far_as_it_can_be_used(
    username: Seq<char>,
    config: Config,
    unusable: Option<Seq<char>>,
    stack: Option<Seq<char>>,
    state: Option<bool>,
)
    ensures
        ({
            let found = keyring_finding(username, config, unusable, stack, state);
            let on = config.storage.unlock_gnome_keyring;
            let handed = stack matches Some(contents) && hands_token(contents);
            &&& found.level == report::Level::Off <==> !on
            &&& found.level == report::Level::Error <==> on && (unusable is Some || !handed)
            &&& on && unusable is None && handed ==> found == record_finding(username, state)
            &&& unusable matches Some(why) ==> (on ==> text::ends(found.message, why))
        }),
{
    if let Some(why) = unusable {
        if config.storage.unlock_gnome_keyring {
            let message = keyring_finding(username, config, unusable, stack, state).message;
            assert(message.skip(message.len() - why.len()) =~= why);
        }
    }
}

/// Each login service that exists is warned of exactly where it does not hand the password on; the
/// three are looked at one by one.
pub proof fn every_login_service_is_looked_at(services: Seq<Service>, name: Seq<char>)
    ensures
        login_findings(services, name).len() == 1 <==> (pam::contents_of(services, name) matches Some(
            contents,
        ) && !hands_wallet_token(contents)),
        login_findings(services, name).len() <= 1,
        login_findings(services, name).len() == 1 ==> login_findings(services, name)[0].level
            == report::Level::Warning && text::starts(
            login_findings(services, name)[0].message,
            name,
        ),
        wallet_warnings(services) == login_findings(services, "sddm"@) + login_findings(
            services,
            "plasmalogin"@,
        ) + login_findings(services, "plasmalogin-fingerprint"@),
        has_login(services) <==> pam::contents_of(services, "sddm"@) is Some || pam::contents_of(
            services,
            "plasmalogin"@,
        ) is Some || pam::contents_of(services, "plasmalogin-fingerprint"@) is Some,
{
    assert(wallet_warnings(services) =~= login_findings(services, "sddm"@) + login_findings(
        services,
        "plasmalogin"@,
    ) + login_findings(services, "plasmalogin-fingerprint"@));
    assert(wallet_service_warning(name).message.take(name.len() as int) =~= name);
}

/// The wallet is off exactly where it is not asked for, and is one error where it cannot be used.
/// Otherwise a missing module and every service that does not hand the password on are warned of, and
/// the credential counts last, unless there is no service at all.
pub proof fn the_wallet_is_judged_as_far_as_it_can_be_used(
    username: Seq<char>,
    config: Config,
    unusable: Option<Seq<char>>,
    module_found: bool,
    services: Seq<Service>,
    state: Option<bool>,
)
    ensures
        ({
            let found = wallet_findings(
                username,
                config,
                unusable,
                module_found,
                services,
                state,
            );
            let on = config.storage.unlock_kwallet;
            &&& found.len() >= 1
            &&& !on ==> found.len() == 1 && found[0].level == report::Level::Off
            &&& on && unusable is Some ==> found.len() == 1 && found[0].level
                == report::Level::Error
            &&& on && unusable is None ==> {
                &&& found.len() == wallet_warnings(services).len() + (if module_found {
                    1int
                } else {
                    2int
                })
                &&& has_login(services) ==> found.last() == wallet_record_finding(username, state)
                &&& !has_login(services) ==> found.last().level == report::Level::Error
                &&& found.subrange(found.len() - 1 - wallet_warnings(services).len(), found.len()
                    - 1) == wallet_warnings(services)
                &&& !module_found ==> found[0].level == report::Level::Warning
            }
        }),
{
    let found = wallet_findings(username, config, unusable, module_found, services, state);
    if config.storage.unlock_kwallet && unusable is None {
        assert(found.subrange(found.len() - 1 - wallet_warnings(services).len(), found.len() - 1)
            =~= wallet_warnings(services));
    }
}

} // verus!
