//! The KDE lock screen and login greeter.

use crate::config::Config;
use crate::pam::{KDE_FACE_PAM_FILE, KDE_SMARTCARD_PAM_FILE, PLASMALOGIN_FACE_PAM_FILE};
use crate::pam_stack::{kde_lock_status, slot_status, KdeLockStatus};
use crate::report::{Finding, Report};
use crate::{doctor, pam_stack, report, text};
use vstd::prelude::*;

verus! {

/// The service that a file of `/etc/pam.d` configures.
pub open spec fn slot_name(file: Seq<char>) -> Seq<char> {
    text::without_prefixes(file, "/etc/pam.d/"@)
}

fn slot_of(file: &str) -> (r: String)
    ensures
        r@ == slot_name(file@),
{
    let file_chars = text::chars(file);
    text::string(text::strip_prefixes(file_chars.as_slice(), "/etc/pam.d/"))
}

pub open spec fn lock_screen_finding(status: KdeLockStatus, file: Seq<char>) -> Finding {
    let slot = slot_name(file);
    match status {
        KdeLockStatus::Wired => report::passing(
            "KDE lock screen"@,
            slot
                + " runs Gaze, so face unlock starts on its own next to the password field"@,
        ),
        KdeLockStatus::Grosshack => report::warned(
            "KDE lock screen"@,
            slot
                + " runs pam_gaze.so in simultaneous mode, which waits for a password prompt that KScreenLocker can never answer"@,
            "Use sequential mode there: replace it with `-auth [success=done default=ignore] pam_gaze.so` in "@
                + file + ", or reinstall gaze-kde."@,
        ),
        KdeLockStatus::NotWired => report::warned(
            "KDE lock screen"@,
            file
                + " does not run Gaze, so face auth only starts after you submit the password field"@,
            "Install the gaze-kde package, or run `sudo gaze-kde-pam enable`."@,
        ),
        KdeLockStatus::NoService => report::warned(
            "KDE lock screen"@,
            file + " does not exist, so KScreenLocker has no biometric slot to start"@,
            "Install the gaze-kde package, or run `sudo gaze-kde-pam enable`, which creates it."@,
        ),
    }
}

/// What the slot with the most to say tells.
pub open spec fn kde_lock_finding(
    kde_fingerprint: Option<Seq<char>>,
    kde_smartcard: Option<Seq<char>>,
) -> Finding {
    let (status, file) = pam_stack::telling_slot(
        pam_stack::slot_state(kde_fingerprint),
        pam_stack::slot_state(kde_smartcard),
    );
    lock_screen_finding(status, file)
}

pub fn check_kde_lock_screen(
    report: &mut Report,
    kde_fingerprint: Option<&str>,
    kde_smartcard: Option<&str>,
)
    ensures
        final(report)@ == old(report)@ + seq![
            kde_lock_finding(
                text::optional_str(kde_fingerprint),
                text::optional_str(kde_smartcard),
            ),
        ],
{
    let (status, file) = kde_lock_status(kde_fingerprint, kde_smartcard);
    let slot = slot_of(file);
    match status {
        KdeLockStatus::Wired => {
            let message = text::cat2(
                slot.as_str(),
                " runs Gaze, so face unlock starts on its own next to the password field",
            );
            report.pass("KDE lock screen", message.as_str());
        },
        KdeLockStatus::Grosshack => {
            let message = text::cat2(
                slot.as_str(),
                " runs pam_gaze.so in simultaneous mode, which waits for a password prompt that KScreenLocker can never answer",
            );
            let fix = text::cat3(
                "Use sequential mode there: replace it with `-auth [success=done default=ignore] pam_gaze.so` in ",
                file,
                ", or reinstall gaze-kde.",
            );
            report.warning("KDE lock screen", message.as_str(), fix.as_str());
        },
        KdeLockStatus::NotWired => {
            let message = text::cat2(
                file,
                " does not run Gaze, so face auth only starts after you submit the password field",
            );
            report.warning(
                "KDE lock screen",
                message.as_str(),
                "Install the gaze-kde package, or run `sudo gaze-kde-pam enable`.",
            );
        },
        KdeLockStatus::NoService => {
            let message = text::cat2(
                file,
                " does not exist, so KScreenLocker has no biometric slot to start",
            );
            report.warning(
                "KDE lock screen",
                message.as_str(),
                "Install the gaze-kde package, or run `sudo gaze-kde-pam enable`, which creates it.",
            );
        },
    }
}

pub open spec fn greeter_finding(plasmalogin_face: Option<Seq<char>>) -> Finding {
    match plasmalogin_face {
        None => report::passing(
            "KDE login greeter"@,
            "no up-front biometric service upstream, so face auth runs when you submit the login form (press Enter on an empty password field)"@,
        ),
        Some(contents) => if pam_stack::status_of(contents) == KdeLockStatus::Wired {
            report::passing(
                "KDE login greeter"@,
                "plasmalogin-fingerprint runs Gaze, so face auth starts as soon as the greeter shows your user"@,
            )
        } else {
            report::warned(
                "KDE login greeter"@,
                PLASMALOGIN_FACE_PAM_FILE@
                    + " exists but does not run Gaze, so face auth at the greeter waits for you to submit the form"@,
                "Run `sudo gaze-kde-pam enable-login` to scan before you type."@,
            )
        },
    }
}

/// The greeter only scans before you type where it starts a service of its own; everywhere else face
/// authentication waits for the submit, as a fingerprint reader does.
pub fn check_kde_login_greeter(report: &mut Report, plasmalogin_face: Option<&str>)
    ensures
        final(report)@ == old(report)@ + seq![
            greeter_finding(text::optional_str(plasmalogin_face)),
        ],
{
    if plasmalogin_face.is_none() {
        report.pass(
            "KDE login greeter",
            "no up-front biometric service upstream, so face auth runs when you submit the login form (press Enter on an empty password field)",
        );
    } else if slot_status(plasmalogin_face) == KdeLockStatus::Wired {
        report.pass(
            "KDE login greeter",
            "plasmalogin-fingerprint runs Gaze, so face auth starts as soon as the greeter shows your user",
        );
    } else {
        let message = text::cat2(
            PLASMALOGIN_FACE_PAM_FILE,
            " exists but does not run Gaze, so face auth at the greeter waits for you to submit the form",
        );
        report.warning(
            "KDE login greeter",
            message.as_str(),
            "Run `sudo gaze-kde-pam enable-login` to scan before you type.",
        );
    }
}

pub open spec fn slot_if(wired: bool, file: Seq<char>) -> Seq<Seq<char>> {
    if wired {
        seq![slot_name(file)]
    } else {
        seq![]
    }
}

/// The slots that start Gaze and can never ask for a confirmation.
pub open spec fn bypassed(
    kde_fingerprint: Option<Seq<char>>,
    kde_smartcard: Option<Seq<char>>,
    plasmalogin_face: Option<Seq<char>>,
) -> Seq<Seq<char>> {
    slot_if(
        pam_stack::slot_state(kde_fingerprint) == KdeLockStatus::Wired,
        KDE_FACE_PAM_FILE@,
    ) + slot_if(
        pam_stack::slot_state(kde_smartcard) == KdeLockStatus::Wired,
        KDE_SMARTCARD_PAM_FILE@,
    ) + slot_if(
        pam_stack::slot_state(plasmalogin_face) == KdeLockStatus::Wired,
        PLASMALOGIN_FACE_PAM_FILE@,
    )
}

pub open spec fn confirmation_findings(
    config: Option<Config>,
    kde_fingerprint: Option<Seq<char>>,
    kde_smartcard: Option<Seq<char>>,
    plasmalogin_face: Option<Seq<char>>,
) -> Seq<Finding> {
    let slots = bypassed(kde_fingerprint, kde_smartcard, plasmalogin_face);
    match config {
        None => seq![],
        Some(config) => report::only_if(
            config.auth.require_confirmation_lock_screen && slots.len() > 0,
            report::warned(
                "KDE confirmation"@,
                "require_confirmation_lock_screen is on, but "@ + text::joined(slots, ", "@)
                    + " cannot be prompted, so a face match unlocks without confirmation there"@,
                "This is by design: the greeter never delivers a response to a noninteractive slot, so asking would hang it for the rest of the lock. Leave the toggle for surfaces that can prompt (sudo with a TTY, polkit, GNOME), or turn it off if the KDE bypass surprises you. See the KDE guide."@,
            ),
        ),
    }
}

fn add_slot(slots: &mut Vec<String>, slot: Option<&str>, file: &str)
    ensures
        text::texts(final(slots)@) == text::texts(old(slots)@) + slot_if(
            pam_stack::slot_state(text::optional_str(slot)) == KdeLockStatus::Wired,
            file@,
        ),
{
    if slot_status(slot) == KdeLockStatus::Wired {
        let name = slot_of(file);
        slots.push(name);
    }
    proof {
        assert(text::texts(slots@) =~= text::texts(old(slots)@) + slot_if(
            pam_stack::slot_state(text::optional_str(slot)) == KdeLockStatus::Wired,
            file@,
        ));
    }
}

/// The KDE biometric slots start without anything to route a response back, so the setting that asks
/// for a confirmation is ignored there by design. This says so when the setting is on and a slot is
/// wired.
pub fn check_kde_confirmation_bypass(
    report: &mut Report,
    config: Option<&Config>,
    kde_fingerprint: Option<&str>,
    kde_smartcard: Option<&str>,
    plasmalogin_face: Option<&str>,
)
    ensures
        final(report)@ == old(report)@ + confirmation_findings(
            doctor::system::given(config),
            text::optional_str(kde_fingerprint),
            text::optional_str(kde_smartcard),
            text::optional_str(plasmalogin_face),
        ),
{
    let config = match config {
        Some(config) => config,
        None => {
            proof {
                report::lemma_nothing(report@);
            }
            return;
        },
    };
    let mut slots: Vec<String> = Vec::new();
    proof {
        assert(text::texts(slots@) =~= seq![]);
    }
    add_slot(&mut slots, kde_fingerprint, KDE_FACE_PAM_FILE);
    add_slot(&mut slots, kde_smartcard, KDE_SMARTCARD_PAM_FILE);
    add_slot(&mut slots, plasmalogin_face, PLASMALOGIN_FACE_PAM_FILE);
    proof {
        assert(text::texts(slots@) =~= bypassed(
            text::optional_str(kde_fingerprint),
            text::optional_str(kde_smartcard),
            text::optional_str(plasmalogin_face),
        ));
    }
    let listed = text::join(&slots, ", ");
    let message = text::cat3(
        "require_confirmation_lock_screen is on, but ",
        listed.as_str(),
        " cannot be prompted, so a face match unlocks without confirmation there",
    );
    report.warning_if(
        config.auth.require_confirmation_lock_screen && slots.len() > 0,
        "KDE confirmation",
        message.as_str(),
        "This is by design: the greeter never delivers a response to a noninteractive slot, so asking would hang it for the rest of the lock. Leave the toggle for surfaces that can prompt (sudo with a TTY, polkit, GNOME), or turn it off if the KDE bypass surprises you. See the KDE guide.",
    );
}

/// A slot is shown by its file's name alone.
pub proof fn a_slot_is_shown_by_its_name()
    ensures
        slot_name("/etc/pam.d/kde-fingerprint"@) == "kde-fingerprint"@,
        slot_name("/etc/pam.d/kde-smartcard"@) == "kde-smartcard"@,
{
    reveal_strlit("/etc/pam.d/");
    reveal_strlit("/etc/pam.d/kde-fingerprint");
    reveal_strlit("kde-fingerprint");
    reveal_strlit("/etc/pam.d/kde-smartcard");
    reveal_strlit("kde-smartcard");
    reveal_with_fuel(text::without_prefixes, 3);
    let dir = "/etc/pam.d/"@;
    let face = "/etc/pam.d/kde-fingerprint"@;
    let card = "/etc/pam.d/kde-smartcard"@;
    assert(face.take(11) =~= dir);
    assert(card.take(11) =~= dir);
    assert(face.skip(11) =~= "kde-fingerprint"@);
    assert(card.skip(11) =~= "kde-smartcard"@);
    assert("kde-fingerprint"@.take(11)[0] == 'k');
    assert("kde-smartcard"@.take(11)[0] == 'k');
    assert(dir[0] == '/');
}

/// The lock screen passes exactly when one of its two slots runs Gaze by itself, whichever one; all
/// else is a warning.
pub proof fn the_lock_screen_passes_by_either_slot(
    fingerprint: Option<Seq<char>>,
    smartcard: Option<Seq<char>>,
)
    ensures
        kde_lock_finding(fingerprint, smartcard).level == report::Level::Pass <==> (
        fingerprint matches Some(contents) && pam_stack::status_of(contents)
            == KdeLockStatus::Wired) || (smartcard matches Some(contents) && pam_stack::status_of(
            contents,
        ) == KdeLockStatus::Wired),
        kde_lock_finding(fingerprint, smartcard).level != report::Level::Pass ==> kde_lock_finding(
            fingerprint,
            smartcard,
        ).level == report::Level::Warning,
        kde_lock_finding(None, None).level == report::Level::Warning,
{
    pam_stack::the_slot_with_the_most_to_say_is_shown(
        pam_stack::slot_state(fingerprint),
        pam_stack::slot_state(smartcard),
    );
}

/// The greeter is a warning exactly where its slot exists and does not run Gaze.
pub proof fn the_greeter_is_warned_of_only_where_its_slot_is_idle(slot: Option<Seq<char>>)
    ensures
        greeter_finding(slot).level == report::Level::Warning <==> (slot matches Some(contents)
            && pam_stack::status_of(contents) != KdeLockStatus::Wired),
        greeter_finding(slot).level == report::Level::Pass <==> (slot matches Some(contents)
            ==> pam_stack::status_of(contents) == KdeLockStatus::Wired),
{
}

/// The slots that cannot ask are those that run Gaze, each by its own contents, in a fixed order.
pub proof fn every_wired_slot_is_bypassed(
    fingerprint: Option<Seq<char>>,
    smartcard: Option<Seq<char>>,
    plasmalogin: Option<Seq<char>>,
)
    ensures
        bypassed(fingerprint, smartcard, plasmalogin) == bypassed(fingerprint, None, None)
            + bypassed(None, smartcard, None) + bypassed(None, None, plasmalogin),
        bypassed(fingerprint, None, None) == (if pam_stack::slot_state(fingerprint)
            == KdeLockStatus::Wired {
            seq![slot_name("/etc/pam.d/kde-fingerprint"@)]
        } else {
            seq![]
        }),
        bypassed(None, smartcard, None) == (if pam_stack::slot_state(smartcard)
            == KdeLockStatus::Wired {
            seq![slot_name("/etc/pam.d/kde-smartcard"@)]
        } else {
            seq![]
        }),
        bypassed(None, None, plasmalogin) == (if pam_stack::slot_state(plasmalogin)
            == KdeLockStatus::Wired {
            seq![slot_name(PLASMALOGIN_FACE_PAM_FILE@)]
        } else {
            seq![]
        }),
{
    assert(bypassed(fingerprint, None, None) =~= (if pam_stack::slot_state(fingerprint)
        == KdeLockStatus::Wired {
        seq![slot_name("/etc/pam.d/kde-fingerprint"@)]
    } else {
        seq![]
    }));
    assert(bypassed(None, smartcard, None) =~= (if pam_stack::slot_state(smartcard)
        == KdeLockStatus::Wired {
        seq![slot_name("/etc/pam.d/kde-smartcard"@)]
    } else {
        seq![]
    }));
    assert(bypassed(None, None, plasmalogin) =~= (if pam_stack::slot_state(plasmalogin)
        == KdeLockStatus::Wired {
        seq![slot_name(PLASMALOGIN_FACE_PAM_FILE@)]
    } else {
        seq![]
    }));
    assert(bypassed(fingerprint, smartcard, plasmalogin) =~= bypassed(fingerprint, None, None)
        + bypassed(None, smartcard, None) + bypassed(None, None, plasmalogin));
}

/// A confirmation is warned of exactly where it is asked for and some slot cannot ask.
pub proof fn a_confirmation_is_warned_of_where_it_cannot_be_asked(
    config: Config,
    fingerprint: Option<Seq<char>>,
    smartcard: Option<Seq<char>>,
    plasmalogin: Option<Seq<char>>,
)
    ensures
        confirmation_findings(None, fingerprint, smartcard, plasmalogin).len() == 0,
        ({
            let found = confirmation_findings(Some(config), fingerprint, smartcard, plasmalogin);
            &&& found.len() == 1 <==> config.auth.require_confirmation_lock_screen && (
            pam_stack::slot_state(fingerprint) == KdeLockStatus::Wired || pam_stack::slot_state(
                smartcard,
            ) == KdeLockStatus::Wired || pam_stack::slot_state(plasmalogin)
                == KdeLockStatus::Wired)
            &&& found.len() <= 1
            &&& found.len() == 1 ==> found[0].level == report::Level::Warning
        }),
{
}

} // verus!
