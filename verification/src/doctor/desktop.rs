//! Which desktop is running, and what its integration looks like: GNOME Shell and its extension.

use crate::paths;
use crate::report::{Finding, Report};
use crate::text::CharClass;
use crate::{report, text};
use vstd::prelude::*;

verus! {

pub const GNOME_EXTENSION_ID: &'static str = "gaze@gundulabs.com";

pub const GNOME_EXTENSION_SCHEMA: &'static str = "org.gnome.shell.extensions.gaze";

pub const GNOME_DOCS_URL: &'static str = "https://gaze.gundulabs.com/guide/gnome";

/// The user's own data directory, and then those of the system.
pub open spec fn data_dirs(
    data_home: Option<Seq<char>>,
    home: Option<Seq<char>>,
    dirs: Option<Seq<char>>,
) -> Seq<Seq<char>> {
    (match data_home {
        Some(value) if value.len() > 0 => seq![value],
        _ => match home {
            Some(home) => seq![paths::path_joined(home, ".local/share"@)],
            None => seq![],
        },
    }) + (match dirs {
        Some(value) if value.len() > 0 => text::pieces(value, CharClass::Is(':')),
        _ => seq!["/usr/local/share"@, "/usr/share"@],
    })
}

/// Where desktop data lies, by `XDG_DATA_HOME`, `HOME` and `XDG_DATA_DIRS`.
pub fn xdg_data_dirs(data_home: Option<&str>, home: Option<&str>, dirs: Option<&str>) -> (r: Vec<
    String,
>)
    ensures
        text::texts(r@) == data_dirs(
            text::optional_str(data_home),
            text::optional_str(home),
            text::optional_str(dirs),
        ),
{
    let mut r: Vec<String> = Vec::new();
    match data_home {
        Some(value) if !value.is_empty() => {
            r.push(value.to_owned());
        },
        _ => {
            if let Some(home) = home {
                r.push(paths::join(home, ".local/share"));
            }
        },
    }
    let ghost own = text::texts(r@);
    let mut system: Vec<String> = Vec::new();
    match dirs {
        Some(value) if !value.is_empty() => {
            let value_chars = text::chars(value);
            system = text::strings(&text::split(value_chars.as_slice(), CharClass::Is(':')));
        },
        _ => {
            system.push("/usr/local/share".to_owned());
            system.push("/usr/share".to_owned());
            proof {
                assert(text::texts(system@) =~= seq!["/usr/local/share"@, "/usr/share"@]);
            }
        },
    }
    let ghost before = r@;
    let ghost added = system@;
    r.append(&mut system);
    proof {
        assert(text::texts(r@) =~= own + text::texts(added));
        assert(own =~= (match text::optional_str(data_home) {
            Some(value) if value.len() > 0 => seq![value],
            _ => match text::optional_str(home) {
                Some(home) => seq![paths::path_joined(home, ".local/share"@)],
                None => seq![],
            },
        }));
    }
    r
}

/// Where the extension lies in a data directory.
pub open spec fn extension_place(data_dir: Seq<char>) -> Seq<char> {
    paths::path_joined(
        paths::path_joined(paths::path_joined(data_dir, "gnome-shell"@), "extensions"@),
        GNOME_EXTENSION_ID@,
    )
}

pub fn extension_dir(data_dir: &str) -> (r: String)
    ensures
        r@ == extension_place(data_dir@),
{
    let shell = paths::join(data_dir, "gnome-shell");
    let extensions = paths::join(shell.as_str(), "extensions");
    paths::join(extensions.as_str(), GNOME_EXTENSION_ID)
}

/// The file that shows that a data directory holds the extension.
pub fn extension_metadata_path(data_dir: &str) -> (r: String)
    ensures
        r@ == paths::path_joined(extension_place(data_dir@), "metadata.json"@),
{
    paths::join(extension_dir(data_dir).as_str(), "metadata.json")
}

/// The file that shows that a data directory holds the extension's compiled schema.
pub fn extension_schema_path(data_dir: &str) -> (r: String)
    ensures
        r@ == paths::path_joined(
            paths::path_joined(extension_place(data_dir@), "schemas"@),
            "gschemas.compiled"@,
        ),
{
    let schemas = paths::join(extension_dir(data_dir).as_str(), "schemas");
    paths::join(schemas.as_str(), "gschemas.compiled")
}

/// The first of the directories whose schema is compiled.
pub open spec fn schema_dir(dirs: Seq<Seq<char>>, compiled: Seq<bool>) -> Option<Seq<char>>
    decreases dirs.len(),
{
    if dirs.len() == 0 || compiled.len() == 0 {
        None
    } else if compiled[0] {
        Some(paths::path_joined(extension_place(dirs[0]), "schemas"@))
    } else {
        schema_dir(dirs.skip(1), compiled.skip(1))
    }
}

/// Nix installs the extension's schema inside the extension directory rather than into the system
/// schema path, so `gsettings` cannot see it unaided. `compiled` says of each directory whether
/// the compiled schema is there.
pub fn extension_schema_dir_in(dirs: &Vec<String>, compiled: &Vec<bool>) -> (r: Option<String>)
    requires
        dirs@.len() == compiled@.len(),
    ensures
        text::optional(r) == schema_dir(text::texts(dirs@), compiled@),
{
    let ghost all = text::texts(dirs@);
    proof {
        assert(all.skip(0) =~= all);
        assert(compiled@.skip(0) =~= compiled@);
    }
    for i in 0..dirs.len()
        invariant
            dirs@.len() == compiled@.len(),
            all == text::texts(dirs@),
            schema_dir(all, compiled@) == schema_dir(all.skip(i as int), compiled@.skip(i as int)),
    {
        if compiled[i] {
            return Some(paths::join(extension_dir(dirs[i].as_str()).as_str(), "schemas"));
        }
        proof {
            assert(all.skip(i as int).skip(1) =~= all.skip(i as int + 1));
            assert(compiled@.skip(i as int).skip(1) =~= compiled@.skip(i as int + 1));
        }
    }
    None
}

/// Whether the extension files are on disk, which separates "the package is missing" from "GNOME
/// Shell has not picked the package up yet". `present` says of each data directory whether the
/// extension's metadata is there.
pub fn extension_installed_in(present: &Vec<bool>) -> (r: bool)
    ensures
        r == present@.contains(true),
{
    for i in 0..present.len()
        invariant
            forall|j: int| 0 <= j < i ==> !present@[j],
    {
        if present[i] {
            proof {
                assert(present@[i as int] == true);
            }
            return true;
        }
    }
    false
}

/// A text that holds anything but colons.
pub open spec fn names_something(s: Seq<char>) -> bool {
    exists|i: int| 0 <= i < s.len() && #[trigger] s[i] != ':'
}

/// The session's desktop names in lower case; where the session names none, those of the processes
/// that run.
pub open spec fn desktop_of(
    current: Seq<char>,
    session: Seq<char>,
    desktop: Seq<char>,
    running: Seq<char>,
) -> Seq<char> {
    let named = text::lowered(current + ":"@ + session + ":"@ + desktop);
    if names_something(named) {
        named
    } else {
        running
    }
}

/// Which desktop is checked. `sudo` strips the session's variables, so what runs is the fallback.
pub fn desktop_name(current: &str, session: &str, desktop: &str, running: &str) -> (r: String)
    ensures
        r@ == desktop_of(current@, session@, desktop@, running@),
{
    let named = text::cat5(current, ":", session, ":", desktop);
    let named = text::lower(text::chars(named.as_str()).as_slice());
    for i in 0..named.len()
        invariant
            named@ == text::lowered(current@ + ":"@ + session@ + ":"@ + desktop@),
            forall|j: int| 0 <= j < i ==> named@[j] == ':',
    {
        if named[i] != ':' {
            return text::string(named.as_slice());
        }
    }
    running.to_owned()
}

/// The desktop that a process belongs to.
pub open spec fn desktop_of_process(comm: Seq<char>) -> Option<Seq<char>> {
    let name = text::trimmed(comm, CharClass::White);
    if name == "plasmashell"@ || name == "kwin_wayland"@ || name == "kwin_x11"@ {
        Some("kde"@)
    } else if name == "gnome-shell"@ {
        Some("gnome"@)
    } else if name == "Hyprland"@ || name == "hyprland"@ {
        Some("hyprland"@)
    } else {
        None
    }
}

/// The desktops that these processes belong to, each once, in the order in which they turn up.
pub open spec fn desktops_of(comms: Seq<Seq<char>>) -> Seq<Seq<char>>
    decreases comms.len(),
{
    if comms.len() == 0 {
        seq![]
    } else {
        let before = desktops_of(comms.drop_last());
        match desktop_of_process(comms.last()) {
            Some(name) => if before.contains(name) {
                before
            } else {
                before.push(name)
            },
            None => before,
        }
    }
}

fn process_desktop(comm: &str) -> (r: Option<&'static str>)
    ensures
        text::optional_str(r) == desktop_of_process(comm@),
{
    let comm_chars = text::chars(comm);
    let name = text::trim(comm_chars.as_slice(), CharClass::White);
    if text::is_text(name, "plasmashell") || text::is_text(name, "kwin_wayland") || text::is_text(
        name,
        "kwin_x11",
    ) {
        Some("kde")
    } else if text::is_text(name, "gnome-shell") {
        Some("gnome")
    } else if text::is_text(name, "Hyprland") || text::is_text(name, "hyprland") {
        Some("hyprland")
    } else {
        None
    }
}

fn listed(names: &Vec<String>, name: &str) -> (r: bool)
    ensures
        r == text::texts(names@).contains(name@),
{
    for i in 0..names.len()
        invariant
            forall|j: int| 0 <= j < i ==> text::texts(names@)[j] != name@,
    {
        if text::str_eq(names[i].as_str(), name) {
            proof {
                assert(text::texts(names@)[i as int] == name@);
            }
            return true;
        }
    }
    false
}

/// The desktops whose processes a user runs, by the names of those processes.
pub fn desktop_from_processes(comms: &Vec<String>) -> (r: String)
    ensures
        r@ == text::joined(desktops_of(text::texts(comms@)), ":"@),
{
    let mut found: Vec<String> = Vec::new();
    let ghost all = text::texts(comms@);
    proof {
        assert(text::texts(found@) =~= desktops_of(all.take(0)));
    }
    for i in 0..comms.len()
        invariant
            all == text::texts(comms@),
            text::texts(found@) == desktops_of(all.take(i as int)),
    {
        proof {
            text::lemma_take_push(all, i as int);
        }
        if let Some(name) = process_desktop(comms[i].as_str()) {
            if !listed(&found, name) {
                let name = name.to_owned();
                proof {
                    text::lemma_texts_push(found@, name);
                }
                found.push(name);
            }
        }
    }
    proof {
        assert(all.take(comms@.len() as int) =~= all);
    }
    text::join(&found, ":")
}

/// The user whose session is checked: the one who called `sudo`, where one did.
pub fn owning_uid(sudo_uid: Option<&str>, uid: u32) -> (r: u32)
    ensures
        r as int == (match text::optional_str(sudo_uid) {
            Some(value) => match text::parsed(value, 10, u32::MAX as int) {
                Some(found) => found,
                None => uid as int,
            },
            None => uid as int,
        }),
{
    match sudo_uid {
        Some(value) => match text::parse_number(text::chars(value).as_slice(), 10, u32::MAX) {
            Some(found) => found,
            None => uid,
        },
        None => uid,
    }
}

/// The way to a switch in the extension's preferences: one page, Behavior, with groups.
pub open spec fn prefs_path(group: Seq<char>, switch: Seq<char>) -> Seq<char> {
    "Open it with `gnome-extensions prefs "@ + GNOME_EXTENSION_ID@
        + "` (or the Extensions app, then Gaze), then Behavior -> "@ + group + " -> \""@ + switch
        + "\""@
}

pub fn gnome_prefs_path(group: &str, switch: &str) -> (r: String)
    ensures
        r@ == prefs_path(group@, switch@),
{
    let mut r = text::cat5(
        "Open it with `gnome-extensions prefs ",
        GNOME_EXTENSION_ID,
        "` (or the Extensions app, then Gaze), then Behavior -> ",
        group,
        " -> \"",
    );
    r.append(switch);
    r.append("\"");
    r
}

pub open spec fn enable_steps() -> Seq<char> {
    "1. Reboot, or log out and back in, so GNOME Shell scans the extension.\n2. Run `gnome-extensions enable "@
        + GNOME_EXTENSION_ID@ + "`.\n3. Run `gsettings set "@ + GNOME_EXTENSION_SCHEMA@
        + " enable-face-authentication true`.\nIf step 2 reports that the extension does not exist, Shell has not rescanned yet: reboot and repeat.\nDetails: "@
        + GNOME_DOCS_URL@
}

/// GNOME Shell only scans extension directories at session start, so a session asked to enable an
/// extension it never scanned drops it again.
pub fn gnome_extension_enable_steps() -> (r: String)
    ensures
        r@ == enable_steps(),
{
    let mut r = text::cat5(
        "1. Reboot, or log out and back in, so GNOME Shell scans the extension.\n2. Run `gnome-extensions enable ",
        GNOME_EXTENSION_ID,
        "`.\n3. Run `gsettings set ",
        GNOME_EXTENSION_SCHEMA,
        " enable-face-authentication true`.\nIf step 2 reports that the extension does not exist, Shell has not rescanned yet: reboot and repeat.\nDetails: ",
    );
    r.append(GNOME_DOCS_URL);
    r
}

/// The extension is in a list of enabled ones, one per line.
pub open spec fn lists_extension(output: Seq<char>) -> bool {
    exists|i: int|
        0 <= i < text::lines_of(output).len() && text::trimmed(
            #[trigger] text::lines_of(output)[i],
            CharClass::White,
        ) == GNOME_EXTENSION_ID@
}

/// Some line of a text is the given one, white space around it aside.
pub(crate) fn has_line(contents: &str, wanted: &str) -> (r: bool)
    ensures
        r == exists|i: int|
            0 <= i < text::lines_of(contents@).len() && text::trimmed(
                #[trigger] text::lines_of(contents@)[i],
                CharClass::White,
            ) == wanted@,
{
    let contents_chars = text::chars(contents);
    let lines = text::lines(contents_chars.as_slice());
    for i in 0..lines.len()
        invariant
            text::views(lines@) == text::lines_of(contents@),
            forall|j: int|
                0 <= j < i ==> text::trimmed(
                    #[trigger] text::lines_of(contents@)[j],
                    CharClass::White,
                ) != wanted@,
    {
        proof {
            assert(text::views(lines@)[i as int] == lines@[i as int]@);
        }
        if text::is_text(text::trim(lines[i], CharClass::White), wanted) {
            return true;
        }
    }
    false
}

/// What `gnome-extensions list --enabled` tells.
pub open spec fn extension_finding(answer: Result<(bool, String), String>, installed: bool) -> Finding {
    match answer {
        Ok((true, output)) => if lists_extension(output@) {
            report::passing("GNOME extension"@, "enabled for the current user"@)
        } else if installed {
            report::warned(
                "GNOME extension"@,
                "installed, but not enabled for the current user"@,
                enable_steps(),
            )
        } else {
            report::warned(
                "GNOME extension"@,
                "not installed for the current user"@,
                "Install the Gaze GNOME extension package (`gaze-gnome-extension`), reboot, then run `gnome-extensions enable "@
                    + GNOME_EXTENSION_ID@ + "`. See "@ + GNOME_DOCS_URL@,
            )
        },
        Ok((false, message)) => report::warned(
            "GNOME extension"@,
            "could not query extensions: "@ + message@,
            "Verify GNOME Shell is running and reinstall the Gaze GNOME extension package."@,
        ),
        Err(error) => report::warned(
            "GNOME extension"@,
            "could not query extensions: "@ + error@,
            "Install the Gaze GNOME extension package for lock-screen authentication."@,
        ),
    }
}

pub fn check_gnome_extension(
    report: &mut Report,
    answer: &Result<(bool, String), String>,
    installed: bool,
)
    ensures
        final(report)@ == old(report)@ + seq![extension_finding(*answer, installed)],
{
    match answer {
        Ok((true, output)) => {
            if has_line(output.as_str(), GNOME_EXTENSION_ID) {
                report.pass("GNOME extension", "enabled for the current user");
            } else if installed {
                let steps = gnome_extension_enable_steps();
                report.warning(
                    "GNOME extension",
                    "installed, but not enabled for the current user",
                    steps.as_str(),
                );
            } else {
                let fix = text::cat4(
                    "Install the Gaze GNOME extension package (`gaze-gnome-extension`), reboot, then run `gnome-extensions enable ",
                    GNOME_EXTENSION_ID,
                    "`. See ",
                    GNOME_DOCS_URL,
                );
                report.warning(
                    "GNOME extension",
                    "not installed for the current user",
                    fix.as_str(),
                );
            }
        },
        Ok((false, message)) => {
            let message = text::cat2("could not query extensions: ", message.as_str());
            report.warning(
                "GNOME extension",
                message.as_str(),
                "Verify GNOME Shell is running and reinstall the Gaze GNOME extension package.",
            );
        },
        Err(error) => {
            let message = text::cat2("could not query extensions: ", error.as_str());
            report.warning(
                "GNOME extension",
                message.as_str(),
                "Install the Gaze GNOME extension package for lock-screen authentication.",
            );
        },
    }
}

pub open spec fn lock_screen_how() -> Seq<char> {
    "Turn it on: "@ + prefs_path(
        "Face authentication"@,
        "Enable face authentication (lock screen)"@,
    )
        + ".\nFrom a terminal: `dconf write /org/gnome/shell/extensions/gaze/enable-face-authentication true`.\n(`gsettings set "@
        + GNOME_EXTENSION_SCHEMA@
        + " ...` does the same, but cannot find the schema where it ships inside the extension directory, as on NixOS.)"@
}

/// What the extension's own setting tells.
pub open spec fn lock_screen_finding(answer: Result<(bool, String), String>) -> Finding {
    match answer {
        Ok((true, value)) => if value@ == "true"@ {
            report::passing("GNOME lock-screen face auth"@, "enabled for the current user"@)
        } else {
            report::switched_off(
                "GNOME lock-screen face auth"@,
                "off for the current user, so the lock screen only takes your password"@,
                lock_screen_how(),
            )
        },
        Ok((false, message)) => report::warned(
            "GNOME lock-screen face auth"@,
            "could not read the extension setting: "@ + message@,
            "Reinstall the Gaze GNOME extension package."@,
        ),
        Err(error) => report::warned(
            "GNOME lock-screen face auth"@,
            "could not read the extension setting: "@ + error@,
            "Reinstall the Gaze GNOME extension package."@,
        ),
    }
}

pub fn check_gnome_lock_screen(report: &mut Report, answer: &Result<(bool, String), String>)
    ensures
        final(report)@ == old(report)@ + seq![lock_screen_finding(*answer)],
{
    match answer {
        Ok((true, value)) => {
            if text::str_eq(value.as_str(), "true") {
                report.pass("GNOME lock-screen face auth", "enabled for the current user");
            } else {
                let prefs = gnome_prefs_path(
                    "Face authentication",
                    "Enable face authentication (lock screen)",
                );
                let how = text::cat5(
                    "Turn it on: ",
                    prefs.as_str(),
                    ".\nFrom a terminal: `dconf write /org/gnome/shell/extensions/gaze/enable-face-authentication true`.\n(`gsettings set ",
                    GNOME_EXTENSION_SCHEMA,
                    " ...` does the same, but cannot find the schema where it ships inside the extension directory, as on NixOS.)",
                );
                report.off(
                    "GNOME lock-screen face auth",
                    "off for the current user, so the lock screen only takes your password",
                    how.as_str(),
                );
            }
        },
        Ok((false, message)) => {
            let message = text::cat2("could not read the extension setting: ", message.as_str());
            report.warning(
                "GNOME lock-screen face auth",
                message.as_str(),
                "Reinstall the Gaze GNOME extension package.",
            );
        },
        Err(error) => {
            let message = text::cat2("could not read the extension setting: ", error.as_str());
            report.warning(
                "GNOME lock-screen face auth",
                message.as_str(),
                "Reinstall the Gaze GNOME extension package.",
            );
        },
    }
}

/// Extensions are looked for in the user's own directory first, then in every directory of the list,
/// or in the two usual ones where there is no list.
pub proof fn the_user_s_directory_comes_first(
    data_home: Seq<char>,
    home: Seq<char>,
    left: Seq<char>,
    right: Seq<char>,
)
    requires
        data_home.len() > 0,
        text::free_of(left, CharClass::Is(':')),
    ensures
        data_dirs(Some(data_home), Some(home), None) == seq![
            data_home,
            "/usr/local/share"@,
            "/usr/share"@,
        ],
        data_dirs(None, Some(home), None)[0] == paths::path_joined(home, ".local/share"@),
        data_dirs(Some(seq![]), Some(home), Some(seq![])) == data_dirs(None, Some(home), None),
        data_dirs(None, None, None) == seq!["/usr/local/share"@, "/usr/share"@],
        data_dirs(Some(data_home), None, Some(left.push(':') + right)) == seq![data_home, left]
            + text::pieces(right, CharClass::Is(':')),
        data_dirs(None, None, Some(left.push(':') + right)) == seq![left] + text::pieces(
            right,
            CharClass::Is(':'),
        ),
{
    text::text_is_cut_at_the_first_of_a_class(left, ':', right, CharClass::Is(':'));
    assert(data_dirs(Some(data_home), Some(home), None) =~= seq![
        data_home,
        "/usr/local/share"@,
        "/usr/share"@,
    ]);
    assert(data_dirs(None, None, None) =~= seq!["/usr/local/share"@, "/usr/share"@]);
    assert(data_dirs(Some(data_home), None, Some(left.push(':') + right)) =~= seq![data_home, left]
        + text::pieces(right, CharClass::Is(':')));
    assert(data_dirs(None, None, Some(left.push(':') + right)) =~= seq![left] + text::pieces(
        right,
        CharClass::Is(':'),
    ));
    assert(data_dirs(Some(seq![]), Some(home), Some(seq![])) =~= data_dirs(
        None,
        Some(home),
        None,
    ));
}

/// The schemas are those of the first directory that has them compiled.
pub proof fn the_first_compiled_schemas_count(dirs: Seq<Seq<char>>, compiled: Seq<bool>, n: int)
    requires
        dirs.len() == compiled.len(),
        0 <= n < dirs.len(),
        compiled[n],
        forall|i: int| 0 <= i < n ==> !#[trigger] compiled[i],
    ensures
        schema_dir(dirs, compiled) == Some(
            paths::path_joined(extension_place(dirs[n]), "schemas"@),
        ),
    decreases n,
{
    if n > 0 {
        assert(!compiled[0]);
        assert forall|i: int| 0 <= i < n - 1 implies !#[trigger] compiled.skip(1)[i] by {
            assert(!compiled[i + 1]);
        }
        the_first_compiled_schemas_count(dirs.skip(1), compiled.skip(1), n - 1);
        assert(dirs.skip(1)[n - 1] == dirs[n]);
    }
}

/// Without compiled schemas there is no directory of them.
pub proof fn no_schemas_where_none_are_compiled(dirs: Seq<Seq<char>>, compiled: Seq<bool>)
    requires
        dirs.len() == compiled.len(),
        forall|i: int| 0 <= i < dirs.len() ==> !#[trigger] compiled[i],
    ensures
        schema_dir(dirs, compiled) is None,
    decreases dirs.len(),
{
    if dirs.len() > 0 {
        assert(!compiled[0]);
        assert forall|i: int| 0 <= i < dirs.len() - 1 implies !#[trigger] compiled.skip(1)[i] by {
            assert(!compiled[i + 1]);
        }
        no_schemas_where_none_are_compiled(dirs.skip(1), compiled.skip(1));
    }
}

/// The extension lies below a directory of data, under its own name.
pub proof fn an_extension_lies_below_its_directory(data_dir: Seq<char>)
    requires
        data_dir.len() > 0,
        data_dir.last() != '/',
    ensures
        extension_place(data_dir) == data_dir + "/gnome-shell/extensions/gaze@gundulabs.com"@,
{
    reveal_strlit("gnome-shell");
    reveal_strlit("extensions");
    reveal_strlit("gaze@gundulabs.com");
    reveal_strlit("/gnome-shell/extensions/gaze@gundulabs.com");
    let shell = paths::path_joined(data_dir, "gnome-shell"@);
    paths::a_joined_path_lies_below_its_base(data_dir, "gnome-shell"@);
    assert(shell =~= data_dir.push('/') + "gnome-shell"@);
    let extensions = paths::path_joined(shell, "extensions"@);
    assert(shell.last() == "gnome-shell"@.last());
    paths::a_joined_path_lies_below_its_base(shell, "extensions"@);
    assert(extensions =~= shell.push('/') + "extensions"@);
    assert(extensions.last() == "extensions"@.last());
    paths::a_joined_path_lies_below_its_base(extensions, "gaze@gundulabs.com"@);
    let tail = seq!['/'] + "gnome-shell"@ + seq!['/'] + "extensions"@ + seq!['/']
        + "gaze@gundulabs.com"@;
    assert("/gnome-shell/extensions/gaze@gundulabs.com"@ =~= tail);
    assert(extension_place(data_dir) =~= data_dir + tail);
}

/// A session that names a desktop in any of its variables is known by all of them, in lower case; one
/// that names none is known by what runs.
pub proof fn a_desktop_is_known_by_its_session(
    current: Seq<char>,
    session: Seq<char>,
    desktop: Seq<char>,
    running: Seq<char>,
)
    ensures
        names_something(current) || names_something(session) || names_something(desktop)
            ==> desktop_of(current, session, desktop, running) == text::lowered(current) + seq![':']
            + text::lowered(session) + seq![':'] + text::lowered(desktop),
        !names_something(current) && !names_something(session) && !names_something(desktop)
            ==> desktop_of(current, session, desktop, running) == running,
        desktop_of(seq![], seq![], seq![], running) == running,
{
    reveal_strlit(":");
    let all = current + ":"@ + session + ":"@ + desktop;
    let named = text::lowered(all);
    let parts = text::lowered(current) + seq![':'] + text::lowered(session) + seq![':']
        + text::lowered(desktop);
    let a: int = current.len() as int;
    let b: int = a + 1 + session.len();
    assert(all.len() == b + 1 + desktop.len());
    assert(named =~= parts);
    assert forall|i: int| 0 <= i < named.len() implies (#[trigger] named[i] != ':') == (all[i]
        != ':') by {}
    if names_something(current) {
        let i = choose|i: int| 0 <= i < current.len() && #[trigger] current[i] != ':';
        assert(named[i] != ':');
    }
    if names_something(session) {
        let i = choose|i: int| 0 <= i < session.len() && #[trigger] session[i] != ':';
        assert(all[a + 1 + i] == session[i]);
        assert(named[a + 1 + i] != ':');
    }
    if names_something(desktop) {
        let i = choose|i: int| 0 <= i < desktop.len() && #[trigger] desktop[i] != ':';
        assert(all[b + 1 + i] == desktop[i]);
        assert(named[b + 1 + i] != ':');
    }
    if names_something(named) {
        let i = choose|i: int| 0 <= i < named.len() && #[trigger] named[i] != ':';
        if i < a {
            assert(current[i] != ':');
        } else if a < i < b {
            assert(session[i - a - 1] != ':');
        } else if i > b {
            assert(desktop[i - b - 1] != ':');
        }
    }
    let nothing = Seq::<char>::empty();
    assert(!names_something(nothing));
}

/// The desktops that run are those of the processes, each once, in the order of their first process.
pub proof fn every_running_desktop_is_named_once(comms: Seq<Seq<char>>, comm: Seq<char>)
    ensures
        desktops_of(comms).no_duplicates(),
        forall|name: Seq<char>| #[trigger] desktops_of(comms).contains(name) <==> exists|i: int|
            0 <= i < comms.len() && desktop_of_process(#[trigger] comms[i]) == Some(name),
        desktop_of_process(comm) is None ==> desktops_of(comms.push(comm)) == desktops_of(comms),
        desktop_of_process(comm) matches Some(name) ==> (!desktops_of(comms).contains(name)
            ==> desktops_of(comms.push(comm)) == desktops_of(comms).push(name)),
    decreases comms.len(),
{
    assert(comms.push(comm).drop_last() =~= comms);
    if comms.len() > 0 {
        let before = comms.drop_last();
        every_running_desktop_is_named_once(before, comm);
        let known = desktops_of(before);
        assert forall|name: Seq<char>| #[trigger] desktops_of(comms).contains(name) implies exists|
            i: int,
        |
            0 <= i < comms.len() && desktop_of_process(#[trigger] comms[i]) == Some(name) by {
            if known.contains(name) {
                let i = choose|i: int|
                    0 <= i < before.len() && desktop_of_process(#[trigger] before[i]) == Some(name);
                assert(comms[i] == before[i]);
            } else {
                assert(desktop_of_process(comms[comms.len() - 1]) == Some(name));
            }
        }
        assert forall|name: Seq<char>|
            (exists|i: int|
                0 <= i < comms.len() && desktop_of_process(#[trigger] comms[i]) == Some(
                    name,
                )) implies #[trigger] desktops_of(comms).contains(name) by {
            let i = choose|i: int|
                0 <= i < comms.len() && desktop_of_process(#[trigger] comms[i]) == Some(name);
            if i < before.len() {
                assert(before[i] == comms[i]);
                assert(known.contains(name));
                let j = choose|j: int| 0 <= j < known.len() && known[j] == name;
                assert(desktops_of(comms)[j] == name);
            } else if !known.contains(name) {
                assert(desktops_of(comms)[known.len() as int] == name);
            }
        }
    }
}

/// A process is known by its name alone, with any space around it.
pub proof fn a_process_is_known_by_its_name(comm: Seq<char>)
    ensures
        ({
            let name = text::trimmed(comm, CharClass::White);
            &&& name == "plasmashell"@ || name == "kwin_wayland"@ || name == "kwin_x11"@
                ==> desktop_of_process(comm) == Some("kde"@)
            &&& name == "gnome-shell"@ ==> desktop_of_process(comm) == Some("gnome"@)
            &&& name == "Hyprland"@ || name == "hyprland"@ ==> desktop_of_process(comm) == Some(
                "hyprland"@,
            )
            &&& desktop_of_process(comm) is Some ==> name == "plasmashell"@ || name
                == "kwin_wayland"@ || name == "kwin_x11"@ || name == "gnome-shell"@ || name
                == "Hyprland"@ || name == "hyprland"@
        }),
{
    reveal_strlit("plasmashell");
    reveal_strlit("kwin_wayland");
    reveal_strlit("kwin_x11");
    reveal_strlit("gnome-shell");
    reveal_strlit("Hyprland");
    reveal_strlit("hyprland");
    assert("plasmashell"@[0] == 'p' && "kwin_wayland"@[0] == 'k' && "kwin_x11"@[0] == 'k');
    assert("gnome-shell"@[0] == 'g' && "Hyprland"@[0] == 'H' && "hyprland"@[0] == 'h');
}

/// The extension is listed exactly when some line of the output is its name, with any space around it.
pub proof fn an_extension_is_listed_on_a_line_of_its_own(output: Seq<char>, i: int)
    requires
        0 <= i < text::lines_of(output).len(),
    ensures
        text::trimmed(text::lines_of(output)[i], CharClass::White) == "gaze@gundulabs.com"@
            ==> lists_extension(output),
        !lists_extension(output) ==> text::lines_of(output)[i] != "gaze@gundulabs.com"@,
{
    reveal_strlit("gaze@gundulabs.com");
    let id = "gaze@gundulabs.com"@;
    let nothing = Seq::<char>::empty();
    assert(text::trimmed(id, CharClass::White) == id) by {
        text::trimming_takes_off_both_ends_alone(nothing, id, nothing, CharClass::White);
        assert(nothing + id + nothing =~= id);
    }
}

/// The extension passes exactly when it is listed as enabled; everything else is a warning.
pub proof fn an_extension_passes_only_where_it_is_enabled(
    answer: Result<(bool, String), String>,
    installed: bool,
)
    ensures
        extension_finding(answer, installed).level == report::Level::Pass <==> (
        answer matches Ok((ok, output)) && ok && lists_extension(output@)),
        extension_finding(answer, installed).level == report::Level::Warning <==> !(
        answer matches Ok((ok, output)) && ok && lists_extension(output@)),
        (answer matches Ok((ok, output)) && ok && !lists_extension(output@)) ==> extension_finding(
            answer,
            true,
        ) != extension_finding(answer, false),
{
    reveal_strlit("installed, but not enabled for the current user");
    reveal_strlit("not installed for the current user");
    assert("installed, but not enabled for the current user"@[0] == 'i');
    assert("not installed for the current user"@[0] == 'n');
}

/// The lock screen passes exactly when the setting reads true; a setting that reads otherwise is off,
/// and one that could not be read is a warning.
pub proof fn the_lock_screen_passes_only_where_it_is_set(answer: Result<(bool, String), String>)
    ensures
        lock_screen_finding(answer).level == report::Level::Pass <==> (
        answer matches Ok((ok, value)) && ok && value@ == "true"@),
        lock_screen_finding(answer).level == report::Level::Off <==> (
        answer matches Ok((ok, value)) && ok && value@ != "true"@),
        lock_screen_finding(answer).level == report::Level::Warning <==> (
        answer matches Ok((ok, value)) ==> !ok),
{
}

} // verus!
