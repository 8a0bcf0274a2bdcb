//! The GDM login screen: what its dconf database resolves to, and whether SELinux lets it see the
//! camera.

use crate::doctor::desktop;
use crate::doctor::desktop::{GNOME_DOCS_URL, GNOME_EXTENSION_ID};
use crate::doctor::system::CommandRun;
use crate::paths;
use crate::report::{Finding, Report};
use crate::text::CharClass;
use crate::{report, text};
use vstd::prelude::*;

verus! {

pub const GDM_FACE_OVERRIDE_PATH: &'static str = "/etc/dconf/db/gdm.d/99-gaze";

pub const GDM_DCONF_PROFILE: &'static str = "gdm";

pub const GDM_DCONF_PROFILE_PATH: &'static str = "/etc/dconf/profile/gdm";

pub const GDM_COMPILED_DB_PATH: &'static str = "/etc/dconf/db/gdm";

pub const GDM_FACE_PAM_SERVICE: &'static str = "gdm-face";

pub const GDM_SELINUX_MODULE: &'static str = "gaze-gdm-camera";

pub const GDM_SELINUX_POLICY_PATH: &'static str = "/usr/share/gaze/gaze-gdm-camera.pp";

/// What `dconf read` wrote: nothing only where it could not answer. An unset key reads back as an
/// empty text, which is not the same, whatever dconf complains of beside it.
pub fn dconf_value(run: &CommandRun) -> (r: Option<String>)
    ensures
        text::optional(r) == (match run {
            CommandRun::Ended { success: true, stdout, stderr: _ } => Some(
                text::trimmed(stdout@, CharClass::White),
            ),
            _ => None,
        }),
{
    match run {
        CommandRun::Ended { success: true, stdout, stderr: _ } => {
            let value_chars = text::chars(stdout.as_str());
            Some(text::string(text::trim(value_chars.as_slice(), CharClass::White)))
        },
        _ => None,
    }
}

/// Where a home directory of the greeter may keep a database: its own configuration, or that of one
/// of its seats.
pub open spec fn config_candidates(home: Seq<char>, entries: Seq<Seq<char>>) -> Seq<Seq<char>> {
    seq![paths::path_joined(home, ".config"@)] + Seq::new(
        entries.len(),
        |i: int| paths::path_joined(entries[i], "config"@),
    )
}

pub fn gdm_config_candidates(home: &str, entries: &Vec<String>) -> (r: Vec<String>)
    ensures
        text::texts(r@) == config_candidates(home@, text::texts(entries@)),
{
    let mut r: Vec<String> = Vec::new();
    let ghost all = config_candidates(home@, text::texts(entries@));
    r.push(paths::join(home, ".config"));
    proof {
        assert(text::texts(r@) =~= all.take(1));
    }
    for i in 0..entries.len()
        invariant
            all == config_candidates(home@, text::texts(entries@)),
            text::texts(r@) == all.take(i as int + 1),
    {
        let dir = paths::join(entries[i].as_str(), "config");
        proof {
            text::lemma_take_push(all, i as int + 1);
            text::lemma_texts_push(r@, dir);
        }
        r.push(dir);
    }
    proof {
        assert(all.take(entries@.len() as int + 1) =~= all);
    }
    r
}

/// What the databases of the greeter's own directories hold, in the order in which they are read.
pub open spec fn values_of(values: Seq<Option<String>>) -> Seq<Option<Seq<char>>> {
    Seq::new(values.len(), |i: int| text::optional(values[i]))
}

/// The position of the first database that holds a value; an empty text is an unset key.
pub open spec fn first_set(values: Seq<Option<Seq<char>>>) -> int
    decreases values.len(),
{
    if values.len() == 0 || (values[0] is Some && (values[0]->0).len() > 0) {
        0
    } else {
        1 + first_set(values.skip(1))
    }
}

/// What the greeter resolves a key to: whatever GDM has written for itself outranks the system
/// database.
pub open spec fn resolved(user: Seq<Option<Seq<char>>>, system: Option<Seq<char>>) -> Option<
    Seq<char>,
> {
    let i = first_set(user);
    if 0 <= i < user.len() {
        user[i]
    } else {
        system
    }
}

proof fn lemma_first_set(values: Seq<Option<Seq<char>>>, n: int)
    requires
        0 <= n <= values.len(),
        forall|j: int|
            0 <= j < n ==> !(#[trigger] values[j] is Some && (values[j]->0).len() > 0),
        n == values.len() || (values[n] is Some && (values[n]->0).len() > 0),
    ensures
        first_set(values) == n,
    decreases values.len(),
{
    if n > 0 {
        let rest = values.skip(1);
        assert forall|j: int| 0 <= j < n - 1 implies !(#[trigger] rest[j] is Some && (
        rest[j]->0).len() > 0) by {
            assert(rest[j] == values[j + 1]);
        }
        if n < values.len() {
            assert(rest[n - 1] == values[n]);
        }
        lemma_first_set(rest, n - 1);
    }
}

fn find_set(values: &Vec<Option<String>>) -> (r: usize)
    ensures
        r <= values@.len(),
        r == first_set(values_of(values@)),
        r < values@.len() ==> values@[r as int] is Some,
{
    let ghost all = values_of(values@);
    let mut i: usize = 0;
    while i < values.len()
        invariant_except_break
            i <= values@.len(),
        invariant
            all == values_of(values@),
            i <= values@.len(),
            forall|j: int| 0 <= j < i ==> !(#[trigger] all[j] is Some && (all[j]->0).len() > 0),
        ensures
            i == values@.len() || (all[i as int] is Some && (all[i as int]->0).len() > 0),
        decreases values@.len() - i,
    {
        if let Some(value) = &values[i] {
            if !value.as_str().is_empty() {
                break;
            }
        }
        i = i + 1;
    }
    proof {
        lemma_first_set(all, i as int);
    }
    i
}

pub fn gdm_greeter_dconf_read(user: &Vec<Option<String>>, system: &Option<String>) -> (r: Option<
    String,
>)
    ensures
        text::optional(r) == resolved(values_of(user@), text::optional(*system)),
{
    let i: usize = find_set(user);
    if i < user.len() {
        match &user[i] {
            Some(value) => Some(value.clone()),
            None => None,
        }
    } else {
        match system {
            Some(value) => Some(value.clone()),
            None => None,
        }
    }
}

/// Which database of the greeter holds a key, for a fix that has to name the file. `dirs` and
/// `user` run side by side.
pub fn gdm_greeter_dconf_source(dirs: &Vec<String>, user: &Vec<Option<String>>) -> (r: Option<
    String,
>)
    requires
        dirs@.len() == user@.len(),
    ensures
        text::optional(r) == database_of(text::texts(dirs@), values_of(user@)),
{
    let i: usize = find_set(user);
    if i < user.len() {
        Some(paths::join(dirs[i].as_str(), "dconf/user"))
    } else {
        None
    }
}

pub open spec fn database_of(dirs: Seq<Seq<char>>, user: Seq<Option<Seq<char>>>) -> Option<
    Seq<char>,
> {
    let i = first_set(user);
    if 0 <= i < user.len() {
        Some(paths::path_joined(dirs[i], "dconf/user"@))
    } else {
        None
    }
}

pub open spec fn boolean(value: Seq<char>) -> Option<bool> {
    if value == "true"@ {
        Some(true)
    } else if value == "false"@ {
        Some(false)
    } else {
        None
    }
}

pub fn dconf_bool(value: &str) -> (r: Option<bool>)
    ensures
        r == boolean(value@),
{
    if text::str_eq(value, "true") {
        Some(true)
    } else if text::str_eq(value, "false") {
        proof {
            reveal_strlit("true");
            reveal_strlit("false");
            assert("true"@.len() != "false"@.len());
        }
        Some(false)
    } else {
        None
    }
}

/// The value GDM itself sees, which a NixOS configuration sets without an override file.
pub fn gdm_face_auth_from_dconf(profile_exists: bool, value: &Option<String>) -> (r: Option<bool>)
    ensures
        r == (match value {
            Some(value) if profile_exists => boolean(value@),
            _ => None,
        }),
{
    match value {
        Some(value) if profile_exists => dconf_bool(value.as_str()),
        _ => None,
    }
}

/// A dconf profile lists a system database on a line of its own.
pub open spec fn reads_system_db(contents: Seq<char>, db: Seq<char>) -> bool {
    exists|i: int|
        0 <= i < text::lines_of(contents).len() && text::trimmed(
            #[trigger] text::lines_of(contents)[i],
            CharClass::White,
        ) == "system-db:"@ + db
}

pub fn profile_reads_system_db(contents: &str, db: &str) -> (r: bool)
    ensures
        r == reads_system_db(contents@, db@),
{
    let wanted = text::cat2("system-db:", db);
    desktop::has_line(contents, wanted.as_str())
}

/// The entries of a list as dconf prints it.
pub open spec fn list_entries(value: Seq<char>) -> Seq<Seq<char>> {
    text::pieces(text::trimmed(value, CharClass::Bracket), CharClass::Is(','))
}

pub open spec fn bare_entry(entry: Seq<char>) -> Seq<char> {
    text::trimmed(text::trimmed(entry, CharClass::White), CharClass::Quote)
}

pub open spec fn lists(value: Seq<char>, uuid: Seq<char>) -> bool {
    exists|i: int|
        0 <= i < list_entries(value).len() && bare_entry(#[trigger] list_entries(value)[i]) == uuid
}

pub fn extensions_include(value: &str, uuid: &str) -> (r: bool)
    ensures
        r == lists(value@, uuid@),
{
    let value_chars = text::chars(value);
    let entries = text::split(
        text::trim(value_chars.as_slice(), CharClass::Bracket),
        CharClass::Is(','),
    );
    for i in 0..entries.len()
        invariant
            text::views(entries@) == list_entries(value@),
            forall|j: int| 0 <= j < i ==> bare_entry(#[trigger] list_entries(value@)[j]) != uuid@,
    {
        proof {
            assert(text::views(entries@)[i as int] == entries@[i as int]@);
        }
        if text::is_text(
            text::trim(text::trim(entries[i], CharClass::White), CharClass::Quote),
            uuid,
        ) {
            return true;
        }
    }
    false
}

/// Whether the greeter can start Gaze.
#[derive(Debug)]
pub enum GdmGreeterReadiness {
    Ready,
    ProfileMissingSystemDb,
    CompiledDbMissing,
    ExtensionNotEnabled,
    /// The greeter database that holds the key, or none where a system layer set it.
    ExtensionsDisabled(Option<String>),
    Unverifiable(String),
}

/// The same, over texts.
pub enum Readiness {
    Ready,
    ProfileMissingSystemDb,
    CompiledDbMissing,
    ExtensionNotEnabled,
    ExtensionsDisabled(Option<Seq<char>>),
    Unverifiable(Seq<char>),
}

impl View for GdmGreeterReadiness {
    type V = Readiness;

    open spec fn view(&self) -> Readiness {
        match self {
            GdmGreeterReadiness::Ready => Readiness::Ready,
            GdmGreeterReadiness::ProfileMissingSystemDb => Readiness::ProfileMissingSystemDb,
            GdmGreeterReadiness::CompiledDbMissing => Readiness::CompiledDbMissing,
            GdmGreeterReadiness::ExtensionNotEnabled => Readiness::ExtensionNotEnabled,
            GdmGreeterReadiness::ExtensionsDisabled(source) => Readiness::ExtensionsDisabled(
                text::optional(*source),
            ),
            GdmGreeterReadiness::Unverifiable(why) => Readiness::Unverifiable(why@),
        }
    }
}

/// What is read of the greeter's configuration.
pub struct GreeterFacts {
    /// The dconf profile, or why it could not be read.
    pub profile: Result<String, String>,
    pub compiled_db: bool,
    /// What the greeter resolves `enabled-extensions` to.
    pub enabled_extensions: Option<String>,
    /// What the greeter resolves `disable-user-extensions` to.
    pub disable_extensions: Option<String>,
    /// The greeter database that holds `disable-user-extensions`.
    pub disable_source: Option<String>,
}

/// The list of enabled extensions counts only while the extension system is not switched off.
pub open spec fn readiness_of(facts: GreeterFacts) -> Readiness {
    match facts.profile {
        Err(error) => Readiness::Unverifiable(
            "could not read "@ + GDM_DCONF_PROFILE_PATH@ + ": "@ + error@,
        ),
        Ok(contents) => if !reads_system_db(contents@, GDM_DCONF_PROFILE@) {
            Readiness::ProfileMissingSystemDb
        } else if !facts.compiled_db {
            Readiness::CompiledDbMissing
        } else {
            match facts.enabled_extensions {
                None => Readiness::Unverifiable("`dconf read` against the GDM database failed"@),
                Some(value) => if !lists(value@, GNOME_EXTENSION_ID@) {
                    Readiness::ExtensionNotEnabled
                } else {
                    match facts.disable_extensions {
                        Some(value) if boolean(value@) == Some(true) =>
                            Readiness::ExtensionsDisabled(text::optional(facts.disable_source)),
                        _ => Readiness::Ready,
                    }
                },
            }
        },
    }
}

pub fn gdm_greeter_readiness(facts: &GreeterFacts) -> (r: GdmGreeterReadiness)
    ensures
        r@ == readiness_of(*facts),
{
    match &facts.profile {
        Err(error) => {
            return GdmGreeterReadiness::Unverifiable(
                text::cat4("could not read ", GDM_DCONF_PROFILE_PATH, ": ", error.as_str()),
            );
        },
        Ok(contents) => {
            if !profile_reads_system_db(contents.as_str(), GDM_DCONF_PROFILE) {
                return GdmGreeterReadiness::ProfileMissingSystemDb;
            }
        },
    }
    if !facts.compiled_db {
        return GdmGreeterReadiness::CompiledDbMissing;
    }
    match &facts.enabled_extensions {
        None => {
            return GdmGreeterReadiness::Unverifiable(
                "`dconf read` against the GDM database failed".to_owned(),
            );
        },
        Some(value) => {
            if !extensions_include(value.as_str(), GNOME_EXTENSION_ID) {
                return GdmGreeterReadiness::ExtensionNotEnabled;
            }
        },
    }
    if let Some(value) = &facts.disable_extensions {
        if let Some(true) = dconf_bool(value.as_str()) {
            let source = match &facts.disable_source {
                Some(path) => Some(path.clone()),
                None => None,
            };
            return GdmGreeterReadiness::ExtensionsDisabled(source);
        }
    }
    GdmGreeterReadiness::Ready
}

pub fn selinux_is_enforcing(value: Option<&str>) -> (r: bool)
    ensures
        r == (match text::optional_str(value) {
            Some(value) => text::trimmed(value, CharClass::White) == "1"@,
            None => false,
        }),
{
    match value {
        Some(value) => {
            let value_chars = text::chars(value);
            text::is_text(text::trim(value_chars.as_slice(), CharClass::White), "1")
        },
        None => false,
    }
}

/// The first word of some line is the module's name.
pub open spec fn lists_module(output: Seq<char>, module: Seq<char>) -> bool {
    exists|i: int|
        0 <= i < text::lines_of(output).len() && first_word_is(
            #[trigger] text::lines_of(output)[i],
            module,
        )
}

pub open spec fn first_word_is(line: Seq<char>, word: Seq<char>) -> bool {
    let words = text::words_of(line, CharClass::White);
    words.len() > 0 && words[0] == word
}

pub fn semodule_lists(output: &str, module: &str) -> (r: bool)
    ensures
        r == lists_module(output@, module@),
{
    let output_chars = text::chars(output);
    let lines = text::lines(output_chars.as_slice());
    for i in 0..lines.len()
        invariant
            text::views(lines@) == text::lines_of(output@),
            forall|j: int|
                0 <= j < i ==> !first_word_is(#[trigger] text::lines_of(output@)[j], module@),
    {
        proof {
            assert(text::views(lines@)[i as int] == lines@[i as int]@);
        }
        let words = text::words(lines[i], CharClass::White);
        if words.len() > 0 {
            proof {
                assert(text::views(words@)[0] == words@[0]@);
            }
            if text::is_text(words[0], module) {
                return true;
            }
        }
    }
    false
}

#[derive(Debug)]
pub enum GdmCameraPolicy {
    Loaded,
    NotLoaded,
    NeedsRoot,
    Unverifiable(String),
}

/// Whether the module that lets the greeter open the camera is loaded, by what `semodule -l` said.
/// Only root can ask.
pub fn gdm_camera_policy(root: bool, answer: &Result<(bool, String), String>) -> (r: GdmCameraPolicy)
    ensures
        match (root, answer) {
            (false, _) => r is NeedsRoot,
            (true, Ok((true, output))) => if lists_module(output@, GDM_SELINUX_MODULE@) {
                r is Loaded
            } else {
                r is NotLoaded
            },
            (true, Ok((false, message))) => r matches GdmCameraPolicy::Unverifiable(why) && why@
                == message@,
            (true, Err(error)) => r matches GdmCameraPolicy::Unverifiable(why) && why@ == error@,
        },
{
    if !root {
        return GdmCameraPolicy::NeedsRoot;
    }
    match answer {
        Ok((true, output)) => {
            if semodule_lists(output.as_str(), GDM_SELINUX_MODULE) {
                GdmCameraPolicy::Loaded
            } else {
                GdmCameraPolicy::NotLoaded
            }
        },
        Ok((false, message)) => GdmCameraPolicy::Unverifiable(message.clone()),
        Err(error) => GdmCameraPolicy::Unverifiable(error.clone()),
    }
}

pub open spec fn selinux_fix(policy_file: bool) -> Seq<char> {
    if policy_file {
        "Run `sudo semodule -i "@ + GDM_SELINUX_POLICY_PATH@ + "`, then reboot."@
    } else {
        "Reinstall the Gaze GNOME extension package to restore "@ + GDM_SELINUX_POLICY_PATH@
            + ", then reboot."@
    }
}

pub fn gdm_selinux_fix(policy_file: bool) -> (r: String)
    ensures
        r@ == selinux_fix(policy_file),
{
    if policy_file {
        text::cat3("Run `sudo semodule -i ", GDM_SELINUX_POLICY_PATH, "`, then reboot.")
    } else {
        text::cat3(
            "Reinstall the Gaze GNOME extension package to restore ",
            GDM_SELINUX_POLICY_PATH,
            ", then reboot.",
        )
    }
}

pub open spec fn policy_finding(policy: GdmCameraPolicy, policy_file: bool) -> Finding {
    match policy {
        GdmCameraPolicy::Loaded => report::passing(
            "GDM camera SELinux policy"@,
            GDM_SELINUX_MODULE@ + " is loaded, so the greeter can open the camera"@,
        ),
        GdmCameraPolicy::NotLoaded => report::failing(
            "GDM camera SELinux policy"@,
            "SELinux is enforcing and "@ + GDM_SELINUX_MODULE@
                + " is not loaded, so the GDM greeter is denied the camera and the login screen never scans"@,
            selinux_fix(policy_file),
        ),
        GdmCameraPolicy::NeedsRoot => report::warned(
            "GDM camera SELinux policy"@,
            "SELinux is enforcing, and whether "@ + GDM_SELINUX_MODULE@
                + " is loaded could not be checked without root"@,
            "Run `sudo gaze doctor` to read the loaded module list."@,
        ),
        GdmCameraPolicy::Unverifiable(why) => report::warned(
            "GDM camera SELinux policy"@,
            "SELinux is enforcing, but the loaded module list could not be read: "@ + why@,
            "Run `semodule -l | grep "@ + GDM_SELINUX_MODULE@ + "`; if it prints nothing, "@
                + selinux_fix(policy_file),
        ),
    }
}

pub fn report_gdm_camera_policy(report: &mut Report, policy: &GdmCameraPolicy, policy_file: bool)
    ensures
        final(report)@ == old(report)@ + seq![policy_finding(*policy, policy_file)],
{
    match policy {
        GdmCameraPolicy::Loaded => {
            let message = text::cat2(
                GDM_SELINUX_MODULE,
                " is loaded, so the greeter can open the camera",
            );
            report.pass("GDM camera SELinux policy", message.as_str());
        },
        GdmCameraPolicy::NotLoaded => {
            let message = text::cat3(
                "SELinux is enforcing and ",
                GDM_SELINUX_MODULE,
                " is not loaded, so the GDM greeter is denied the camera and the login screen never scans",
            );
            let fix = gdm_selinux_fix(policy_file);
            report.error("GDM camera SELinux policy", message.as_str(), fix.as_str());
        },
        GdmCameraPolicy::NeedsRoot => {
            let message = text::cat3(
                "SELinux is enforcing, and whether ",
                GDM_SELINUX_MODULE,
                " is loaded could not be checked without root",
            );
            report.warning(
                "GDM camera SELinux policy",
                message.as_str(),
                "Run `sudo gaze doctor` to read the loaded module list.",
            );
        },
        GdmCameraPolicy::Unverifiable(why) => {
            let message = text::cat2(
                "SELinux is enforcing, but the loaded module list could not be read: ",
                why.as_str(),
            );
            let how = gdm_selinux_fix(policy_file);
            let fix = text::cat4(
                "Run `semodule -l | grep ",
                GDM_SELINUX_MODULE,
                "`; if it prints nothing, ",
                how.as_str(),
            );
            report.warning("GDM camera SELinux policy", message.as_str(), fix.as_str());
        },
    }
}

/// What SELinux has to say: nothing where it does not enforce.
pub open spec fn selinux_findings(
    enforcing: bool,
    policy: GdmCameraPolicy,
    policy_file: bool,
) -> Seq<Finding> {
    report::only_if(enforcing, policy_finding(policy, policy_file))
}

pub fn check_gdm_selinux(
    report: &mut Report,
    enforcing: bool,
    policy: &GdmCameraPolicy,
    policy_file: bool,
)
    ensures
        final(report)@ == old(report)@ + selinux_findings(enforcing, *policy, policy_file),
{
    if !enforcing {
        proof {
            report::lemma_nothing(report@);
        }
        return;
    }
    report_gdm_camera_policy(report, policy, policy_file);
}

pub open spec fn disabled_fix(source: Option<Seq<char>>) -> Seq<char> {
    match source {
        Some(path) => path
            + " holds that key and outranks every keyfile under /etc/dconf/db/gdm.d, so it has to be cleared there:\nsudo rm -f "@
            + path + "\nThen reboot. GDM writes the file again with its own defaults."@,
        None => "Put `disable-user-extensions=false` under `[org/gnome/shell]` in "@
            + GDM_FACE_OVERRIDE_PATH@ + ", run `sudo dconf update`, then reboot."@,
    }
}

/// What is said of a greeter whose override file is there.
pub open spec fn readiness_finding(readiness: Readiness) -> Finding {
    match readiness {
        Readiness::Ready => report::passing(
            "GDM login face auth"@,
            "enabled system-wide via "@ + GDM_FACE_OVERRIDE_PATH@
                + "; toggle it under Behavior -> GDM login screen in `gnome-extensions prefs "@
                + GNOME_EXTENSION_ID@ + "`"@,
        ),
        Readiness::ProfileMissingSystemDb => report::failing(
            "GDM login face auth"@,
            GDM_FACE_OVERRIDE_PATH@ + " exists, but "@ + GDM_DCONF_PROFILE_PATH@
                + " does not list `system-db:gdm`, so GDM never reads it"@,
            "Add a `system-db:gdm` line to "@ + GDM_DCONF_PROFILE_PATH@
                + ", run `sudo dconf update`, then reboot."@,
        ),
        Readiness::CompiledDbMissing => report::failing(
            "GDM login face auth"@,
            GDM_FACE_OVERRIDE_PATH@ + " exists, but the compiled database "@ + GDM_COMPILED_DB_PATH@
                + " does not"@,
            "Run `sudo dconf update`, then reboot."@,
        ),
        Readiness::ExtensionNotEnabled => report::failing(
            "GDM login face auth"@,
            "the GDM database does not enable "@ + GNOME_EXTENSION_ID@
                + " for the greeter, so the login screen never starts the "@ + GDM_FACE_PAM_SERVICE@
                + " PAM service"@,
            "Reinstall the Gaze GNOME extension package, run `sudo dconf update`, then reboot."@,
        ),
        Readiness::ExtensionsDisabled(source) => report::failing(
            "GDM login face auth"@,
            "the greeter resolves `org.gnome.shell disable-user-extensions` to true, which switches off every GNOME Shell extension at the login screen, "@
                + GNOME_EXTENSION_ID@ + " included"@,
            disabled_fix(source),
        ),
        Readiness::Unverifiable(why) => report::warned(
            "GDM login face auth"@,
            GDM_FACE_OVERRIDE_PATH@
                + " enables it, but the greeter configuration could not be verified: "@ + why,
            "Install the `dconf` command-line tool and re-run `gaze doctor`."@,
        ),
    }
}

fn report_readiness(report: &mut Report, readiness: &GdmGreeterReadiness)
    ensures
        final(report)@ == old(report)@ + seq![readiness_finding(readiness@)],
{
    match readiness {
        GdmGreeterReadiness::Ready => {
            let message = text::cat5(
                "enabled system-wide via ",
                GDM_FACE_OVERRIDE_PATH,
                "; toggle it under Behavior -> GDM login screen in `gnome-extensions prefs ",
                GNOME_EXTENSION_ID,
                "`",
            );
            report.pass("GDM login face auth", message.as_str());
        },
        GdmGreeterReadiness::ProfileMissingSystemDb => {
            let message = text::cat4(
                GDM_FACE_OVERRIDE_PATH,
                " exists, but ",
                GDM_DCONF_PROFILE_PATH,
                " does not list `system-db:gdm`, so GDM never reads it",
            );
            let fix = text::cat3(
                "Add a `system-db:gdm` line to ",
                GDM_DCONF_PROFILE_PATH,
                ", run `sudo dconf update`, then reboot.",
            );
            report.error("GDM login face auth", message.as_str(), fix.as_str());
        },
        GdmGreeterReadiness::CompiledDbMissing => {
            let message = text::cat4(
                GDM_FACE_OVERRIDE_PATH,
                " exists, but the compiled database ",
                GDM_COMPILED_DB_PATH,
                " does not",
            );
            report.error(
                "GDM login face auth",
                message.as_str(),
                "Run `sudo dconf update`, then reboot.",
            );
        },
        GdmGreeterReadiness::ExtensionNotEnabled => {
            let message = text::cat5(
                "the GDM database does not enable ",
                GNOME_EXTENSION_ID,
                " for the greeter, so the login screen never starts the ",
                GDM_FACE_PAM_SERVICE,
                " PAM service",
            );
            report.error(
                "GDM login face auth",
                message.as_str(),
                "Reinstall the Gaze GNOME extension package, run `sudo dconf update`, then reboot.",
            );
        },
        GdmGreeterReadiness::ExtensionsDisabled(source) => {
            let message = text::cat3(
                "the greeter resolves `org.gnome.shell disable-user-extensions` to true, which switches off every GNOME Shell extension at the login screen, ",
                GNOME_EXTENSION_ID,
                " included",
            );
            let fix = match source {
                Some(path) => text::cat4(
                    path.as_str(),
                    " holds that key and outranks every keyfile under /etc/dconf/db/gdm.d, so it has to be cleared there:\nsudo rm -f ",
                    path.as_str(),
                    "\nThen reboot. GDM writes the file again with its own defaults.",
                ),
                None => text::cat3(
                    "Put `disable-user-extensions=false` under `[org/gnome/shell]` in ",
                    GDM_FACE_OVERRIDE_PATH,
                    ", run `sudo dconf update`, then reboot.",
                ),
            };
            report.error("GDM login face auth", message.as_str(), fix.as_str());
        },
        GdmGreeterReadiness::Unverifiable(why) => {
            let message = text::cat3(
                GDM_FACE_OVERRIDE_PATH,
                " enables it, but the greeter configuration could not be verified: ",
                why.as_str(),
            );
            report.warning(
                "GDM login face auth",
                message.as_str(),
                "Install the `dconf` command-line tool and re-run `gaze doctor`.",
            );
        },
    }
}

pub open spec fn login_how() -> Seq<char> {
    "Turn it on: "@ + desktop::prefs_path("GDM login screen"@, "Enable face auth at GDM login"@)
        + ", then reboot. It asks for admin authorization and writes "@ + GDM_FACE_OVERRIDE_PATH@
        + " for you.\nBy hand: put `enable-face-authentication=true` under `[org/gnome/shell/extensions/gaze]` in "@
        + GDM_FACE_OVERRIDE_PATH@ + ", run `sudo dconf update`, then reboot.\nDetails: "@
        + GNOME_DOCS_URL@ + "#optional-enable-face-at-gdm-login"@
}

/// What is said of face authentication at the login screen: by the value that GDM sees and whether
/// the override file is there.
pub open spec fn login_finding(
    dconf_face_auth: Option<bool>,
    override_exists: bool,
    readiness: Readiness,
) -> Finding {
    if dconf_face_auth == Some(false) && override_exists {
        report::warned(
            "GDM login face auth"@,
            GDM_FACE_OVERRIDE_PATH@
                + " enables it, but the compiled GDM dconf database still reports it disabled"@,
            "Run `sudo dconf update`, then restart GDM (or reboot)."@,
        )
    } else if dconf_face_auth == Some(true) && !override_exists {
        report::passing(
            "GDM login face auth"@,
            "enabled in the GDM dconf profile by your system configuration, not by Gaze (on NixOS, `services.gaze.gnome.gdmFaceLogin`)"@,
        )
    } else if override_exists {
        readiness_finding(readiness)
    } else {
        report::switched_off(
            "GDM login face auth"@,
            "off, so the login screen only takes your password (the lock screen is a separate switch)"@,
            login_how(),
        )
    }
}

pub fn check_gdm_login(
    report: &mut Report,
    dconf_face_auth: Option<bool>,
    override_exists: bool,
    readiness: &GdmGreeterReadiness,
)
    ensures
        final(report)@ == old(report)@ + seq![
            login_finding(dconf_face_auth, override_exists, readiness@),
        ],
{
    match (dconf_face_auth, override_exists) {
        (Some(false), true) => {
            let message = text::cat2(
                GDM_FACE_OVERRIDE_PATH,
                " enables it, but the compiled GDM dconf database still reports it disabled",
            );
            report.warning(
                "GDM login face auth",
                message.as_str(),
                "Run `sudo dconf update`, then restart GDM (or reboot).",
            );
        },
        (Some(true), false) => {
            report.pass(
                "GDM login face auth",
                "enabled in the GDM dconf profile by your system configuration, not by Gaze (on NixOS, `services.gaze.gnome.gdmFaceLogin`)",
            );
        },
        (_, true) => {
            report_readiness(report, readiness);
        },
        (_, false) => {
            let prefs = desktop::gnome_prefs_path(
                "GDM login screen",
                "Enable face auth at GDM login",
            );
            let mut how = text::cat5(
                "Turn it on: ",
                prefs.as_str(),
                ", then reboot. It asks for admin authorization and writes ",
                GDM_FACE_OVERRIDE_PATH,
                " for you.\nBy hand: put `enable-face-authentication=true` under `[org/gnome/shell/extensions/gaze]` in ",
            );
            how.append(GDM_FACE_OVERRIDE_PATH);
            how.append(", run `sudo dconf update`, then reboot.\nDetails: ");
            how.append(GNOME_DOCS_URL);
            how.append("#optional-enable-face-at-gdm-login");
            report.off(
                "GDM login face auth",
                "off, so the login screen only takes your password (the lock screen is a separate switch)",
                how.as_str(),
            );
        },
    }
}

/// The greeter's configuration is looked for in its home first, then in each of the entries.
pub proof fn the_greeter_s_home_comes_first(home: Seq<char>, entries: Seq<Seq<char>>, i: int)
    requires
        0 <= i < entries.len(),
    ensures
        config_candidates(home, entries).len() == entries.len() + 1,
        config_candidates(home, entries)[0] == paths::path_joined(home, ".config"@),
        config_candidates(home, entries)[i + 1] == paths::path_joined(entries[i], "config"@),
{
}

/// A setting is the first that a user's database gives, and the system's where none does; an empty
/// answer gives none.
pub proof fn the_first_value_given_counts(
    dirs: Seq<Seq<char>>,
    user: Seq<Option<Seq<char>>>,
    system: Option<Seq<char>>,
    n: int,
)
    requires
        0 <= n <= user.len(),
        forall|i: int|
            0 <= i < n ==> (#[trigger] user[i] matches Some(value) ==> value.len() == 0),
    ensures
        n < user.len() ==> (user[n] matches Some(value) ==> (value.len() > 0 ==> resolved(
            user,
            system,
        ) == Some(value) && database_of(dirs, user) == Some(
            paths::path_joined(dirs[n], "dconf/user"@),
        ))),
        n == user.len() ==> resolved(user, system) == system && database_of(dirs, user) is None,
{
    lemma_first_value(user, n);
}

proof fn lemma_first_value(values: Seq<Option<Seq<char>>>, n: int)
    requires
        0 <= n <= values.len(),
        forall|i: int|
            0 <= i < n ==> (#[trigger] values[i] matches Some(value) ==> value.len() == 0),
    ensures
        n == values.len() || (values[n] is Some && (values[n]->0).len() > 0) ==> first_set(values)
            == n,
    decreases n,
{
    if n > 0 {
        let rest = values.skip(1);
        assert forall|i: int| 0 <= i < n - 1 implies (
            #[trigger] rest[i] matches Some(value) ==> value.len() == 0) by {
            assert(rest[i] == values[i + 1]);
        }
        lemma_first_value(rest, n - 1);
        assert(values[0] matches Some(value) ==> value.len() == 0);
        if n < values.len() {
            assert(rest[n - 1] == values[n]);
        }
    }
}

/// Only the two words stand for truth and falsehood.
pub proof fn two_words_are_boolean(value: Seq<char>)
    ensures
        boolean(value) == Some(true) <==> value == "true"@,
        boolean(value) == Some(false) <==> value == "false"@,
        boolean(value) is None <==> value != "true"@ && value != "false"@,
{
    reveal_strlit("true");
    reveal_strlit("false");
    assert("true"@[0] == 't' && "false"@[0] == 'f');
}

/// A profile reads a database exactly when some line names it, wherever that line stands, with any
/// space around it.
pub proof fn a_database_is_read_by_a_line_of_its_own(contents: Seq<char>, db: Seq<char>, i: int)
    requires
        0 <= i < text::lines_of(contents).len(),
    ensures
        text::trimmed(text::lines_of(contents)[i], CharClass::White) == "system-db:"@ + db
            ==> reads_system_db(contents, db),
        !reads_system_db(contents, db) ==> text::trimmed(
            text::lines_of(contents)[i],
            CharClass::White,
        ) != "system-db:"@ + db,
{
}

/// A list in brackets has the entries between its commas, and an entry is what stands in its quotes,
/// with any space around them.
pub proof fn a_list_has_the_entries_between_its_commas(
    inner: Seq<char>,
    front: Seq<char>,
    name: Seq<char>,
    back: Seq<char>,
    quote: char,
)
    requires
        inner.len() > 0,
        !text::in_class(inner[0], CharClass::Bracket),
        !text::in_class(inner.last(), CharClass::Bracket),
        text::all_of(front, CharClass::White),
        text::all_of(back, CharClass::White),
        quote == '\'' || quote == '"',
        name.len() > 0,
        !text::in_class(name[0], CharClass::Quote),
        !text::in_class(name.last(), CharClass::Quote),
    ensures
        list_entries(seq!['['] + inner + seq![']']) == text::pieces(inner, CharClass::Is(',')),
        bare_entry(front + (seq![quote] + name + seq![quote]) + back) == name,
{
    text::trimming_takes_off_both_ends_alone(seq!['['], inner, seq![']'], CharClass::Bracket);
    let quoted = seq![quote] + name + seq![quote];
    assert(quoted[0] == quote && quoted.last() == quote);
    text::trimming_takes_off_both_ends_alone(front, quoted, back, CharClass::White);
    text::trimming_takes_off_both_ends_alone(seq![quote], name, seq![quote], CharClass::Quote);
}

/// An extension is listed exactly when some entry is its name, wherever it stands.
pub proof fn an_extension_is_listed_as_an_entry(value: Seq<char>, uuid: Seq<char>, i: int)
    requires
        0 <= i < list_entries(value).len(),
    ensures
        bare_entry(list_entries(value)[i]) == uuid ==> lists(value, uuid),
        !lists(value, uuid) ==> bare_entry(list_entries(value)[i]) != uuid,
{
}

/// The greeter is ready exactly when its profile reads the database, the database is compiled and
/// enables the extension, and extensions are not switched off. The first of these that fails is what
/// is reported.
pub proof fn the_greeter_is_ready_only_where_nothing_fails(facts: GreeterFacts)
    ensures
        ({
            let readiness = readiness_of(facts);
            let profile = facts.profile matches Ok(contents) && reads_system_db(
                contents@,
                "gdm"@,
            );
            let enabled = facts.enabled_extensions matches Some(value) && lists(
                value@,
                "gaze@gundulabs.com"@,
            );
            let off = facts.disable_extensions matches Some(value) && value@ == "true"@;
            &&& readiness is Ready <==> profile && facts.compiled_db && enabled && !off
            &&& readiness is ProfileMissingSystemDb <==> facts.profile is Ok && !profile
            &&& readiness is CompiledDbMissing <==> profile && !facts.compiled_db
            &&& readiness is ExtensionNotEnabled <==> profile && facts.compiled_db
                && facts.enabled_extensions is Some && !enabled
            &&& readiness is ExtensionsDisabled <==> profile && facts.compiled_db && enabled && off
            &&& readiness is Unverifiable <==> facts.profile is Err || (profile && facts.compiled_db
                && facts.enabled_extensions is None)
            &&& readiness matches Readiness::ExtensionsDisabled(source) ==> source
                == text::optional(facts.disable_source)
        }),
{
    match facts.disable_extensions {
        Some(value) => {
            two_words_are_boolean(value@);
        },
        None => {},
    }
}

/// A module is loaded exactly when it is the first word of some line, with any space around it.
pub proof fn a_module_is_the_first_word_of_its_line(
    front: Seq<char>,
    word: Seq<char>,
    c: char,
    rest: Seq<char>,
)
    requires
        text::all_of(front, CharClass::White),
        text::free_of(word, CharClass::White),
        word.len() > 0,
        text::in_class(c, CharClass::White),
    ensures
        first_word_is(front + (word.push(c) + rest), word),
        first_word_is(front + word, word),
        !first_word_is(front, word),
    decreases front.len(),
{
    text::words_end_at_every_separator(word, c, rest, CharClass::White);
    text::text_without_separators_is_one_word(word, CharClass::White);
    if front.len() == 0 {
        assert(front + (word.push(c) + rest) =~= word.push(c) + rest);
        assert(front + word =~= word);
        assert(text::words_of(front, CharClass::White) =~= seq![]);
    } else {
        let left = front.drop_last();
        let last = front.last();
        assert(front =~= left.push(last));
        assert forall|i: int| 0 <= i < left.len() implies text::in_class(
            #[trigger] left[i],
            CharClass::White,
        ) by {
            assert(left[i] == front[i]);
        }
        lemma_blank(left);
        assert(text::in_class(front[front.len() - 1], CharClass::White));
        text::words_end_at_every_separator(left, last, word.push(c) + rest, CharClass::White);
        text::words_end_at_every_separator(left, last, word, CharClass::White);
        text::words_end_at_every_separator(left, last, seq![], CharClass::White);
        text::text_without_separators_is_one_word(seq![], CharClass::White);
        assert(left.push(last) + Seq::<char>::empty() =~= front);
        assert(front + (word.push(c) + rest) =~= left.push(last) + (word.push(c) + rest));
        assert(front + word =~= left.push(last) + word);
    }
}

proof fn lemma_blank(s: Seq<char>)
    requires
        text::all_of(s, CharClass::White),
    ensures
        text::words_of(s, CharClass::White).len() == 0,
    decreases s.len(),
{
    if s.len() > 0 {
        assert(text::in_class(s[0], CharClass::White));
        assert forall|i: int| 0 <= i < s.skip(1).len() implies text::in_class(
            #[trigger] s.skip(1)[i],
            CharClass::White,
        ) by {
            assert(s.skip(1)[i] == s[i + 1]);
        }
        lemma_blank(s.skip(1));
    }
}

/// A listed module counts on whatever line it stands.
pub proof fn a_module_counts_on_any_line(output: Seq<char>, module: Seq<char>, i: int)
    requires
        0 <= i < text::lines_of(output).len(),
    ensures
        first_word_is(text::lines_of(output)[i], module) ==> lists_module(output, module),
        !lists_module(output, module) ==> !first_word_is(text::lines_of(output)[i], module),
{
}

/// The camera's policy matters only where policies are enforced. A policy that is known to be missing
/// is an error, and one that could not be looked up is a warning.
pub proof fn a_policy_matters_only_where_it_is_enforced(policy: GdmCameraPolicy, policy_file: bool)
    ensures
        selinux_findings(false, policy, policy_file).len() == 0,
        selinux_findings(true, policy, policy_file).len() == 1,
        ({
            let level = selinux_findings(true, policy, policy_file)[0].level;
            &&& level == report::Level::Pass <==> policy is Loaded
            &&& level == report::Level::Error <==> policy is NotLoaded
            &&& level == report::Level::Warning <==> policy is NeedsRoot || policy is Unverifiable
        }),
{
}

/// A readiness passes where it is ready, is a warning where it could not be told, and an error where
/// something is known to be wrong.
pub proof fn readiness_passes_only_where_ready(readiness: Readiness)
    ensures
        readiness_finding(readiness).level == report::Level::Pass <==> readiness is Ready,
        readiness_finding(readiness).level == report::Level::Warning <==> readiness is Unverifiable,
        readiness_finding(readiness).level == report::Level::Error <==> !(readiness is Ready) && !(
        readiness is Unverifiable),
{
}

/// Face login is off exactly when there is no override and the greeter does not resolve it to true. It
/// is the system's own where there is no override; an override that the greeter contradicts is a
/// warning, and any other is judged by how ready the greeter is.
pub proof fn login_is_off_only_where_nothing_sets_it(
    dconf_face_auth: Option<bool>,
    override_exists: bool,
    readiness: Readiness,
)
    ensures
        ({
            let found = login_finding(dconf_face_auth, override_exists, readiness);
            &&& found.level == report::Level::Off <==> !override_exists && dconf_face_auth != Some(
                true,
            )
            &&& !override_exists && dconf_face_auth == Some(true) ==> found.level
                == report::Level::Pass
            &&& override_exists && dconf_face_auth == Some(false) ==> found.level
                == report::Level::Warning
            &&& override_exists && dconf_face_auth != Some(false) ==> found == readiness_finding(
                readiness,
            )
        }),
{
}

/// The repair for a switch that is set begins with the file that sets it.
pub proof fn a_repair_names_the_file_that_holds_the_switch(path: Seq<char>)
    ensures
        text::starts(disabled_fix(Some(path)), path),
{
    assert(disabled_fix(Some(path)).take(path.len() as int) =~= path);
}

} // verus!
