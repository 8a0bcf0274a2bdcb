//! Reading PAM service files: which lines load Gaze, in what order, and what they hand on.

use crate::text;
use crate::text::CharClass;
use vstd::prelude::*;

verus! {

/// PAM falls back here when `/etc/pam.d` has no such service, and Arch, Debian and openSUSE ship
/// some services only there.
pub const VENDOR_PAM_DIR: &'static str = "/usr/lib/pam.d";

pub const PAM_PASSWORD_MODULE: &'static str = "pam_unix.so";

pub const PAM_FINGERPRINT_MODULE: &'static str = "pam_fprintd.so";

pub const KDE_FACE_PAM_FILE: &'static str = "/etc/pam.d/kde-fingerprint";

pub const KDE_SMARTCARD_PAM_FILE: &'static str = "/etc/pam.d/kde-smartcard";

pub const PLASMALOGIN_FACE_PAM_FILE: &'static str = "/etc/pam.d/plasmalogin-fingerprint";

/// The file that stands in for a service file that `/etc/pam.d` does not have.
pub fn vendor_service_path(path: &str) -> (r: String)
    ensures
        r@ == VENDOR_PAM_DIR@ + "/"@ + text::after_last(path@, '/'),
{
    let path = text::chars(path);
    let name = text::string(text::last_piece(path.as_slice(), '/'));
    text::cat3(VENDOR_PAM_DIR, "/", name.as_str())
}

/// A line without its comment.
pub open spec fn uncommented(line: Seq<char>) -> Seq<char> {
    text::before(line, CharClass::Is('#'))
}

/// A token that names a Gaze module, bare or by its path.
pub open spec fn names_gaze(token: Seq<char>) -> bool {
    ||| token == "pam_gaze.so"@
    ||| text::ends(token, "/pam_gaze.so"@)
    ||| names_grosshack(token)
}

/// A token that names the deprecated simultaneous module.
pub open spec fn names_grosshack(token: Seq<char>) -> bool {
    ||| token == "pam_gaze_grosshack.so"@
    ||| text::ends(token, "/pam_gaze_grosshack.so"@)
}

/// The tokens of a line.
pub open spec fn tokens(line: Seq<char>) -> Seq<Seq<char>> {
    text::words_of(text::trimmed(uncommented(line), CharClass::White), CharClass::AsciiWhite)
}

pub open spec fn has_reference(line: Seq<char>) -> bool {
    exists|i: int| 0 <= i < tokens(line).len() && names_gaze(#[trigger] tokens(line)[i])
}

pub open spec fn has_grosshack(line: Seq<char>) -> bool {
    exists|i: int| 0 <= i < tokens(line).len() && names_grosshack(#[trigger] tokens(line)[i])
}

/// Some line of a file loads a Gaze module.
pub open spec fn file_has_reference(contents: Seq<char>) -> bool {
    exists|i: int|
        0 <= i < text::lines_of(contents).len() && has_reference(
            #[trigger] text::lines_of(contents)[i],
        )
}

pub open spec fn file_has_grosshack(contents: Seq<char>) -> bool {
    exists|i: int|
        0 <= i < text::lines_of(contents).len() && has_grosshack(
            #[trigger] text::lines_of(contents)[i],
        )
}

fn is_grosshack_token(token: &[char]) -> (r: bool)
    ensures
        r == names_grosshack(token@),
{
    text::is_text(token, "pam_gaze_grosshack.so") || text::ends_with(
        token,
        text::chars("/pam_gaze_grosshack.so").as_slice(),
    )
}

fn is_gaze_token(token: &[char]) -> (r: bool)
    ensures
        r == names_gaze(token@),
{
    text::is_text(token, "pam_gaze.so") || text::ends_with(
        token,
        text::chars("/pam_gaze.so").as_slice(),
    ) || is_grosshack_token(token)
}

fn line_tokens(line: &[char]) -> (r: Vec<&[char]>)
    ensures
        text::views(r@) == tokens(line@),
{
    text::words(
        text::trim(text::cut_before(line, CharClass::Is('#')), CharClass::White),
        CharClass::AsciiWhite,
    )
}

pub(crate) fn line_has_reference(line: &[char]) -> (r: bool)
    ensures
        r == has_reference(line@),
{
    let found = line_tokens(line);
    for i in 0..found.len()
        invariant
            text::views(found@) == tokens(line@),
            forall|j: int| 0 <= j < i ==> !names_gaze(#[trigger] tokens(line@)[j]),
    {
        proof {
            assert(text::views(found@)[i as int] == found@[i as int]@);
        }
        if is_gaze_token(found[i]) {
            return true;
        }
    }
    false
}

fn line_has_grosshack(line: &[char]) -> (r: bool)
    ensures
        r == has_grosshack(line@),
{
    let found = line_tokens(line);
    for i in 0..found.len()
        invariant
            text::views(found@) == tokens(line@),
            forall|j: int| 0 <= j < i ==> !names_grosshack(#[trigger] tokens(line@)[j]),
    {
        proof {
            assert(text::views(found@)[i as int] == found@[i as int]@);
        }
        if is_grosshack_token(found[i]) {
            return true;
        }
    }
    false
}

pub fn pam_line_has_reference(line: &str) -> (r: bool)
    ensures
        r == has_reference(line@),
{
    line_has_reference(text::chars(line).as_slice())
}

/// Whether a line loads the deprecated `pam_gaze_grosshack.so`.
pub fn pam_line_has_grosshack(line: &str) -> (r: bool)
    ensures
        r == has_grosshack(line@),
{
    line_has_grosshack(text::chars(line).as_slice())
}

pub fn pam_file_has_reference(contents: &str) -> (r: bool)
    ensures
        r == file_has_reference(contents@),
{
    let contents_chars = text::chars(contents);
    let lines = text::lines(contents_chars.as_slice());
    for i in 0..lines.len()
        invariant
            text::views(lines@) == text::lines_of(contents@),
            forall|j: int| 0 <= j < i ==> !has_reference(#[trigger] text::lines_of(contents@)[j]),
    {
        proof {
            assert(text::views(lines@)[i as int] == lines@[i as int]@);
        }
        if line_has_reference(lines[i]) {
            return true;
        }
    }
    false
}

pub fn pam_file_has_grosshack(contents: &str) -> (r: bool)
    ensures
        r == file_has_grosshack(contents@),
{
    let contents_chars = text::chars(contents);
    let lines = text::lines(contents_chars.as_slice());
    for i in 0..lines.len()
        invariant
            text::views(lines@) == text::lines_of(contents@),
            forall|j: int| 0 <= j < i ==> !has_grosshack(#[trigger] text::lines_of(contents@)[j]),
    {
        proof {
            assert(text::views(lines@)[i as int] == lines@[i as int]@);
        }
        if line_has_grosshack(lines[i]) {
            return true;
        }
    }
    false
}

/// The service that a line pulls in, in either spelling.
pub open spec fn pulled_in(line: Seq<char>) -> Option<Seq<char>> {
    let words = text::words_of(uncommented(line), CharClass::AsciiWhite);
    if words.len() == 0 {
        None
    } else if words[0] == "@include"@ {
        if words.len() > 1 {
            Some(words[1])
        } else {
            None
        }
    } else if words.len() > 2 && (words[1] == "include"@ || words[1] == "substack"@) {
        Some(words[2])
    } else {
        None
    }
}

fn line_pulls_in(line: &[char]) -> (r: Option<String>)
    ensures
        text::optional(r) == pulled_in(line@),
{
    let words = text::words(text::cut_before(line, CharClass::Is('#')), CharClass::AsciiWhite);
    let ghost seen = text::views(words@);
    if words.len() == 0 {
        return None;
    }
    proof {
        assert(seen[0] == words@[0]@);
    }
    if text::is_text(words[0], "@include") {
        if words.len() > 1 {
            proof {
                assert(seen[1] == words@[1]@);
            }
            return Some(text::string(words[1]));
        }
        return None;
    }
    if words.len() > 2 {
        proof {
            assert(seen[1] == words@[1]@);
            assert(seen[2] == words@[2]@);
        }
        if text::is_text(words[1], "include") || text::is_text(words[1], "substack") {
            return Some(text::string(words[2]));
        }
    }
    None
}

pub fn pam_include_target(line: &str) -> (r: Option<String>)
    ensures
        text::optional(r) == pulled_in(line@),
{
    line_pulls_in(text::chars(line).as_slice())
}

/// The services that a file pulls in, in the order of its lines.
pub open spec fn all_pulled_in(lines: Seq<Seq<char>>) -> Seq<Seq<char>>
    decreases lines.len(),
{
    if lines.len() == 0 {
        seq![]
    } else {
        match pulled_in(lines.last()) {
            Some(target) => all_pulled_in(lines.drop_last()).push(target),
            None => all_pulled_in(lines.drop_last()),
        }
    }
}

pub fn pam_include_targets(contents: &str) -> (r: Vec<String>)
    ensures
        text::texts(r@) == all_pulled_in(text::lines_of(contents@)),
{
    let contents_chars = text::chars(contents);
    let lines = text::lines(contents_chars.as_slice());
    let mut r: Vec<String> = Vec::new();
    proof {
        assert(text::texts(r@) =~= all_pulled_in(text::lines_of(contents@).take(0)));
    }
    for i in 0..lines.len()
        invariant
            text::views(lines@) == text::lines_of(contents@),
            text::texts(r@) == all_pulled_in(text::lines_of(contents@).take(i as int)),
    {
        proof {
            assert(text::views(lines@)[i as int] == lines@[i as int]@);
            text::lemma_take_push(text::lines_of(contents@), i as int);
        }
        if let Some(target) = line_pulls_in(lines[i]) {
            proof {
                text::lemma_texts_push(r@, target);
            }
            r.push(target);
        }
    }
    proof {
        assert(text::lines_of(contents@).take(lines@.len() as int) =~= text::lines_of(contents@));
    }
    r
}

/// A service file: its name and its text.
pub struct Service {
    pub name: String,
    pub contents: String,
}

/// The text of a service, from the first file of that name.
pub open spec fn contents_of(services: Seq<Service>, name: Seq<char>) -> Option<Seq<char>>
    decreases services.len(),
{
    if services.len() == 0 {
        None
    } else if services[0].name@ == name {
        Some(services[0].contents@)
    } else {
        contents_of(services.skip(1), name)
    }
}

/// A service ends up loading a Gaze module, itself or through the services that it pulls in, no
/// deeper than `depth`.
pub open spec fn reaches(services: Seq<Service>, name: Seq<char>, depth: nat) -> bool
    decreases depth,
{
    match contents_of(services, name) {
        None => false,
        Some(contents) => file_has_reference(contents) || (depth > 0 && exists|i: int|
            0 <= i < all_pulled_in(text::lines_of(contents)).len() && reaches(
                services,
                #[trigger] all_pulled_in(text::lines_of(contents))[i],
                (depth - 1) as nat,
            )),
    }
}

pub(crate) fn find_service(services: &Vec<Service>, name: &str) -> (r: Option<usize>)
    ensures
        match r {
            Some(i) => i < services@.len() && contents_of(services@, name@) == Some(
                services@[i as int].contents@,
            ),
            None => contents_of(services@, name@) is None,
        },
{
    proof {
        assert(services@.skip(0) =~= services@);
    }
    for i in 0..services.len()
        invariant
            contents_of(services@, name@) == contents_of(services@.skip(i as int), name@),
    {
        if text::str_eq(services[i].name.as_str(), name) {
            return Some(i);
        }
        proof {
            assert(services@.skip(i as int).skip(1) =~= services@.skip(i as int + 1));
        }
    }
    None
}

/// Whether a service ends up loading a Gaze module, following what it pulls in into the shared
/// stacks that Debian and Fedora wire Gaze into rather than naming it per service.
pub fn pam_service_reaches_gaze(services: &Vec<Service>, service: &str, depth: u8) -> (r: bool)
    ensures
        r == reaches(services@, service@, depth as nat),
    decreases depth,
{
    match find_service(services, service) {
        None => false,
        Some(at) => {
            let contents = services[at].contents.as_str();
            if pam_file_has_reference(contents) {
                return true;
            }
            if depth == 0 {
                return false;
            }
            let targets = pam_include_targets(contents);
            let ghost wanted = all_pulled_in(text::lines_of(contents@));
            for i in 0..targets.len()
                invariant
                    depth > 0,
                    text::texts(targets@) == wanted,
                    wanted == all_pulled_in(text::lines_of(contents@)),
                    contents_of(services@, service@) == Some(contents@),
                    !file_has_reference(contents@),
                    forall|j: int|
                        0 <= j < i ==> !reaches(
                            services@,
                            #[trigger] wanted[j],
                            (depth - 1) as nat,
                        ),
            {
                proof {
                    assert(wanted[i as int] == targets@[i as int]@);
                }
                if pam_service_reaches_gaze(services, targets[i].as_str(), depth - 1) {
                    return true;
                }
            }
            false
        },
    }
}

/// Following a file's references further never loses a module that was already reached.
pub proof fn reaching_deeper_keeps_what_is_reached(
    services: Seq<Service>,
    name: Seq<char>,
    depth: nat,
    deeper: nat,
)
    requires
        depth <= deeper,
        reaches(services, name, depth),
    ensures
        reaches(services, name, deeper),
    decreases depth,
{
    let contents = contents_of(services, name)->0;
    if !file_has_reference(contents) {
        let wanted = all_pulled_in(text::lines_of(contents));
        let i = choose|i: int|
            0 <= i < wanted.len() && reaches(services, #[trigger] wanted[i], (depth - 1) as nat);
        reaching_deeper_keeps_what_is_reached(
            services,
            wanted[i],
            (depth - 1) as nat,
            (deeper - 1) as nat,
        );
    }
}

/// A token that names a Gaze module by an absolute path.
pub open spec fn is_module_path(token: Seq<char>) -> bool {
    &&& text::starts(token, "/"@)
    &&& text::ends(token, "/pam_gaze.so"@) || text::ends(token, "/pam_gaze_grosshack.so"@)
}

/// The tokens among these that name a Gaze module by an absolute path.
pub open spec fn module_paths(words: Seq<Seq<char>>) -> Seq<Seq<char>>
    decreases words.len(),
{
    if words.len() == 0 {
        seq![]
    } else if is_module_path(words.last()) {
        module_paths(words.drop_last()).push(words.last())
    } else {
        module_paths(words.drop_last())
    }
}

pub fn pam_line_module_paths(line: &str) -> (r: Vec<String>)
    ensures
        text::texts(r@) == module_paths(
            text::words_of(uncommented(line@), CharClass::AsciiWhite),
        ),
{
    let line_chars = text::chars(line);
    let words = text::words(
        text::cut_before(line_chars.as_slice(), CharClass::Is('#')),
        CharClass::AsciiWhite,
    );
    let slash = text::chars("/");
    let module = text::chars("/pam_gaze.so");
    let grosshack = text::chars("/pam_gaze_grosshack.so");
    let ghost all = text::words_of(uncommented(line@), CharClass::AsciiWhite);
    let mut r: Vec<String> = Vec::new();
    proof {
        assert(text::texts(r@) =~= module_paths(all.take(0)));
    }
    for i in 0..words.len()
        invariant
            text::views(words@) == all,
            slash@ == "/"@,
            module@ == "/pam_gaze.so"@,
            grosshack@ == "/pam_gaze_grosshack.so"@,
            text::texts(r@) == module_paths(all.take(i as int)),
    {
        proof {
            assert(text::views(words@)[i as int] == words@[i as int]@);
            text::lemma_take_push(all, i as int);
        }
        if text::starts_with(words[i], slash.as_slice()) && (text::ends_with(
            words[i],
            module.as_slice(),
        ) || text::ends_with(words[i], grosshack.as_slice())) {
            let path = text::string(words[i]);
            proof {
                text::lemma_texts_push(r@, path);
            }
            r.push(path);
        }
    }
    proof {
        assert(all.take(words@.len() as int) =~= all);
    }
    r
}

/// A Gaze line in retry mode.
pub open spec fn is_retry(line: Seq<char>) -> bool {
    has_reference(line) && text::words_of(uncommented(line), CharClass::AsciiWhite).contains(
        "retry"@,
    )
}

pub(crate) fn has_word(words: &Vec<&[char]>, word: &str) -> (r: bool)
    ensures
        r == text::views(words@).contains(word@),
{
    for i in 0..words.len()
        invariant
            forall|j: int| 0 <= j < i ==> text::views(words@)[j] != word@,
    {
        proof {
            assert(text::views(words@)[i as int] == words@[i as int]@);
        }
        if text::is_text(words[i], word) {
            return true;
        }
    }
    false
}

fn line_is_retry(line: &[char]) -> (r: bool)
    ensures
        r == is_retry(line@),
{
    line_has_reference(line) && has_word(
        &text::words(text::cut_before(line, CharClass::Is('#')), CharClass::AsciiWhite),
        "retry",
    )
}

pub fn pam_line_is_retry(line: &str) -> (r: bool)
    ensures
        r == is_retry(line@),
{
    line_is_retry(text::chars(line).as_slice())
}

/// A line without its comment and the white space around it.
pub open spec fn bare(line: Seq<char>) -> Seq<char> {
    text::trimmed(uncommented(line), CharClass::White)
}

/// The first word of a line is `auth`, or `-auth`, which PAM reads alike where the module exists.
pub open spec fn is_auth(line: Seq<char>) -> bool {
    let words = text::words_of(line, CharClass::AsciiWhite);
    words.len() > 0 && (words[0] == "auth"@ || words[0] == "-auth"@)
}

/// The bare lines of an `auth` stack.
pub open spec fn auth_lines(lines: Seq<Seq<char>>) -> Seq<Seq<char>>
    decreases lines.len(),
{
    if lines.len() == 0 {
        seq![]
    } else if is_auth(bare(lines.last())) {
        auth_lines(lines.drop_last()).push(bare(lines.last()))
    } else {
        auth_lines(lines.drop_last())
    }
}

fn line_is_auth(line: &[char]) -> (r: bool)
    ensures
        r == is_auth(line@),
{
    let words = text::words(line, CharClass::AsciiWhite);
    if words.len() == 0 {
        return false;
    }
    proof {
        assert(text::views(words@)[0] == words@[0]@);
    }
    text::is_text(words[0], "auth") || text::is_text(words[0], "-auth")
}

fn stack_lines(contents: &[char]) -> (r: Vec<&[char]>)
    ensures
        text::views(r@) == auth_lines(text::lines_of(contents@)),
{
    let lines = text::lines(contents);
    let ghost all = text::lines_of(contents@);
    let mut r: Vec<&[char]> = Vec::new();
    proof {
        assert(text::views(r@) =~= auth_lines(all.take(0)));
    }
    for i in 0..lines.len()
        invariant
            text::views(lines@) == all,
            text::views(r@) == auth_lines(all.take(i as int)),
    {
        proof {
            assert(text::views(lines@)[i as int] == lines@[i as int]@);
            text::lemma_take_push(all, i as int);
        }
        let line = text::trim(text::cut_before(lines[i], CharClass::Is('#')), CharClass::White);
        if line_is_auth(line) {
            let ghost before = r@;
            r.push(line);
            proof {
                assert(text::views(r@) =~= text::views(before).push(line@));
            }
        }
    }
    proof {
        assert(all.take(lines@.len() as int) =~= all);
    }
    r
}

/// The lines of the `auth` stack, without comments.
pub fn pam_auth_lines(contents: &str) -> (r: Vec<String>)
    ensures
        text::texts(r@) == auth_lines(text::lines_of(contents@)),
{
    let contents_chars = text::chars(contents);
    text::strings(&stack_lines(contents_chars.as_slice()))
}

/// The first retry line stands above every line that asks for a password, so no rejected password
/// ever reaches it.
pub open spec fn retry_is_misplaced(stack: Seq<Seq<char>>) -> bool {
    exists|i: int|
        0 <= i < stack.len() && is_retry(#[trigger] stack[i]) && forall|j: int|
            0 <= j < i ==> !is_retry(#[trigger] stack[j]) && !text::mentions(
                stack[j],
                PAM_PASSWORD_MODULE@,
            )
}

pub fn find_misplaced_retry_entry(contents: &str) -> (r: bool)
    ensures
        r == retry_is_misplaced(auth_lines(text::lines_of(contents@))),
{
    let contents_chars = text::chars(contents);
    let stack = stack_lines(contents_chars.as_slice());
    let ghost all = auth_lines(text::lines_of(contents@));
    let mut password_seen = false;
    let ghost mut password_at: int = 0;
    for i in 0..stack.len()
        invariant
            text::views(stack@) == all,
            all == auth_lines(text::lines_of(contents@)),
            forall|j: int| 0 <= j < i ==> !is_retry(#[trigger] all[j]),
            !password_seen ==> forall|j: int|
                0 <= j < i ==> !text::mentions(#[trigger] all[j], PAM_PASSWORD_MODULE@),
            password_seen ==> 0 <= password_at < i && text::mentions(
                all[password_at],
                PAM_PASSWORD_MODULE@,
            ),
    {
        proof {
            assert(text::views(stack@)[i as int] == stack@[i as int]@);
        }
        if line_is_retry(stack[i]) {
            proof {
                if password_seen {
                    assert forall|k: int|
                        0 <= k < all.len() && is_retry(#[trigger] all[k]) implies !(forall|j: int|
                        0 <= j < k ==> !is_retry(#[trigger] all[j]) && !text::mentions(
                            all[j],
                            PAM_PASSWORD_MODULE@,
                        )) by {
                        if k > i {
                            assert(is_retry(all[i as int]));
                        } else {
                            assert(!is_retry(all[password_at]));
                        }
                    }
                } else {
                    assert(is_retry(all[i as int]));
                    assert(retry_is_misplaced(all));
                }
            }
            return !password_seen;
        }
        if text::contains(stack[i], PAM_PASSWORD_MODULE) {
            password_seen = true;
            proof {
                password_at = i as int;
            }
        }
    }
    false
}

/// How many lines stand above the first Gaze line that is not a retry.
pub open spec fn lines_above_gaze(stack: Seq<Seq<char>>) -> int
    decreases stack.len(),
{
    if stack.len() == 0 || (has_reference(stack[0]) && !is_retry(stack[0])) {
        0
    } else {
        1 + lines_above_gaze(stack.skip(1))
    }
}

/// Some of the first `n` lines mention a module.
pub open spec fn mentioned_above(stack: Seq<Seq<char>>, n: int, module: Seq<char>) -> bool {
    exists|i: int| 0 <= i < n && text::mentions(#[trigger] stack[i], module)
}

/// The password and fingerprint modules that run before Gaze.
pub open spec fn competitors_above(stack: Seq<Seq<char>>) -> Seq<Seq<char>> {
    let n = lines_above_gaze(stack);
    if n == stack.len() {
        seq![]
    } else {
        (if mentioned_above(stack, n, PAM_PASSWORD_MODULE@) {
            seq![PAM_PASSWORD_MODULE@]
        } else {
            seq![]
        }) + (if mentioned_above(stack, n, PAM_FINGERPRINT_MODULE@) {
            seq![PAM_FINGERPRINT_MODULE@]
        } else {
            seq![]
        })
    }
}

proof fn lemma_lines_above(stack: Seq<Seq<char>>, n: int)
    requires
        0 <= n <= stack.len(),
        forall|j: int| 0 <= j < n ==> !(has_reference(#[trigger] stack[j]) && !is_retry(stack[j])),
        n == stack.len() || (has_reference(stack[n]) && !is_retry(stack[n])),
    ensures
        lines_above_gaze(stack) == n,
    decreases stack.len(),
{
    if n > 0 {
        let rest = stack.skip(1);
        assert forall|j: int| 0 <= j < n - 1 implies !(has_reference(#[trigger] rest[j])
            && !is_retry(rest[j])) by {
            assert(rest[j] == stack[j + 1]);
        }
        if n < stack.len() {
            assert(rest[n - 1] == stack[n]);
        }
        lemma_lines_above(rest, n - 1);
    }
}

fn any_mentions(stack: &Vec<&[char]>, n: usize, module: &str) -> (r: bool)
    requires
        n <= stack@.len(),
    ensures
        r == mentioned_above(text::views(stack@), n as int, module@),
{
    for i in 0..n
        invariant
            n <= stack@.len(),
            forall|j: int|
                0 <= j < i ==> !text::mentions(#[trigger] text::views(stack@)[j], module@),
    {
        proof {
            assert(text::views(stack@)[i as int] == stack@[i as int]@);
        }
        if text::contains(stack[i], module) {
            return true;
        }
    }
    false
}

/// The contents of a list of names.
pub open spec fn names(parts: Seq<&'static str>) -> Seq<Seq<char>> {
    Seq::new(parts.len(), |i: int| parts[i]@)
}

/// Competing `auth` modules (password, fingerprint) that stand above Gaze, which stalls face
/// authentication behind their prompts.
pub fn find_pam_ordering_conflicts(contents: &str) -> (r: Vec<&'static str>)
    ensures
        names(r@) == competitors_above(auth_lines(text::lines_of(contents@))),
{
    let contents_chars = text::chars(contents);
    let stack = stack_lines(contents_chars.as_slice());
    let ghost all = auth_lines(text::lines_of(contents@));
    let mut above: usize = 0;
    while above < stack.len() && !(line_has_reference(stack[above]) && !line_is_retry(stack[above]))
        invariant
            text::views(stack@) == all,
            above <= stack@.len(),
            forall|j: int|
                0 <= j < above ==> !(has_reference(#[trigger] all[j]) && !is_retry(all[j])),
        decreases stack@.len() - above,
    {
        proof {
            assert(all[above as int] == stack@[above as int]@);
        }
        above = above + 1;
    }
    proof {
        if above < stack@.len() {
            assert(all[above as int] == stack@[above as int]@);
        }
        lemma_lines_above(all, above as int);
    }
    let mut r: Vec<&'static str> = Vec::new();
    if above < stack.len() {
        if any_mentions(&stack, above, PAM_PASSWORD_MODULE) {
            r.push(PAM_PASSWORD_MODULE);
        }
        if any_mentions(&stack, above, PAM_FINGERPRINT_MODULE) {
            r.push(PAM_FINGERPRINT_MODULE);
        }
    }
    proof {
        assert(names(r@) =~= competitors_above(all));
    }
    r
}

/// A line of a stack that loads Gaze other than as a retry.
pub open spec fn asks_for_a_face(line: Seq<char>) -> bool {
    has_reference(line) && !is_retry(line)
}

/// The first line of a stack that asks for a face.
pub open spec fn is_first_face_line(stack: Seq<Seq<char>>, at: int) -> bool {
    &&& 0 <= at < stack.len()
    &&& asks_for_a_face(stack[at])
    &&& forall|j: int| 0 <= j < at ==> !asks_for_a_face(#[trigger] stack[j])
}

proof fn lemma_above_is_first(stack: Seq<Seq<char>>)
    ensures
        0 <= lines_above_gaze(stack) <= stack.len(),
        lines_above_gaze(stack) < stack.len() ==> is_first_face_line(stack, lines_above_gaze(stack)),
        lines_above_gaze(stack) == stack.len() ==> forall|j: int|
            0 <= j < stack.len() ==> !asks_for_a_face(#[trigger] stack[j]),
    decreases stack.len(),
{
    if stack.len() > 0 && !asks_for_a_face(stack[0]) {
        let rest = stack.skip(1);
        lemma_above_is_first(rest);
        let n = lines_above_gaze(stack);
        assert forall|j: int| 0 <= j < n && j < stack.len() implies !asks_for_a_face(
            #[trigger] stack[j],
        ) by {
            if j > 0 {
                assert(rest[j - 1] == stack[j]);
            }
        }
        if n < stack.len() {
            assert(rest[n - 1] == stack[n]);
        }
    }
}

/// A module is reported exactly when it asks for a password or a fingerprint and some line anywhere
/// above the first line that asks for a face mentions it. Where no line asks for a face nothing is
/// reported. The password comes first, and nothing is reported twice.
pub proof fn a_module_is_reported_wherever_it_stands_above_gaze(
    stack: Seq<Seq<char>>,
    gaze: int,
    module: Seq<char>,
)
    ensures
        is_first_face_line(stack, gaze) ==> (competitors_above(stack).contains(module) <==> (module
            == "pam_unix.so"@ || module == "pam_fprintd.so"@) && exists|i: int|
            0 <= i < gaze && text::mentions(#[trigger] stack[i], module)),
        (forall|i: int| 0 <= i < stack.len() ==> !asks_for_a_face(#[trigger] stack[i]))
            ==> competitors_above(stack).len() == 0,
        competitors_above(stack).len() <= 2,
        competitors_above(stack).len() == 2 ==> competitors_above(stack) == seq![
            "pam_unix.so"@,
            "pam_fprintd.so"@,
        ],
{
    reveal_strlit("pam_unix.so");
    reveal_strlit("pam_fprintd.so");
    assert("pam_unix.so"@.len() != "pam_fprintd.so"@.len());
    lemma_above_is_first(stack);
    let n = lines_above_gaze(stack);
    let found = competitors_above(stack);
    if is_first_face_line(stack, gaze) {
        if n < stack.len() {
            if n < gaze {
                assert(asks_for_a_face(stack[n]));
            } else if gaze < n {
                assert(asks_for_a_face(stack[gaze]));
            }
        } else {
            assert(asks_for_a_face(stack[gaze]));
        }
        assert(n == gaze);
        let password = mentioned_above(stack, n, "pam_unix.so"@);
        let finger = mentioned_above(stack, n, "pam_fprintd.so"@);
        if password {
            assert(found[0] == "pam_unix.so"@);
        }
        if finger {
            assert(found.last() == "pam_fprintd.so"@);
        }
    }
}

/// What stands on top of a stack and neither asks for a face nor mentions a competing module never
/// changes what is reported, and neither does anything below the first line that asks for a face.
pub proof fn unrelated_lines_change_no_report(
    above: Seq<Seq<char>>,
    stack: Seq<Seq<char>>,
    below: Seq<Seq<char>>,
)
    requires
        forall|i: int|
            0 <= i < above.len() ==> !asks_for_a_face(#[trigger] above[i]) && !text::mentions(
                above[i],
                "pam_unix.so"@,
            ) && !text::mentions(above[i], "pam_fprintd.so"@),
        exists|i: int| is_first_face_line(stack, i),
    ensures
        competitors_above(above + stack + below) == competitors_above(stack),
{
    let gaze = choose|i: int| is_first_face_line(stack, i);
    let all = above + stack + below;
    let n = above.len() as int;
    assert(all[n + gaze] == stack[gaze]);
    assert forall|j: int| 0 <= j < n + gaze implies !asks_for_a_face(#[trigger] all[j]) by {
        if j < n {
            assert(all[j] == above[j]);
        } else {
            assert(all[j] == stack[j - n]);
        }
    }
    assert(is_first_face_line(all, n + gaze));
    lemma_lines_above(stack, gaze);
    lemma_lines_above(all, n + gaze);
    lemma_mentions_below(above, stack, below, gaze, "pam_unix.so"@);
    lemma_mentions_below(above, stack, below, gaze, "pam_fprintd.so"@);
}

proof fn lemma_mentions_below(
    above: Seq<Seq<char>>,
    stack: Seq<Seq<char>>,
    below: Seq<Seq<char>>,
    n: int,
    module: Seq<char>,
)
    requires
        0 <= n <= stack.len(),
        forall|i: int| 0 <= i < above.len() ==> !text::mentions(#[trigger] above[i], module),
    ensures
        mentioned_above(above + stack + below, above.len() + n, module) == mentioned_above(
            stack,
            n,
            module,
        ),
{
    let all = above + stack + below;
    let k = above.len() as int;
    if mentioned_above(stack, n, module) {
        let i = choose|i: int| 0 <= i < n && text::mentions(#[trigger] stack[i], module);
        assert(all[k + i] == stack[i]);
    }
    if mentioned_above(all, k + n, module) {
        let i = choose|i: int| 0 <= i < k + n && text::mentions(#[trigger] all[i], module);
        if i < k {
            assert(all[i] == above[i]);
        } else {
            assert(all[i] == stack[i - k]);
        }
    }
}

/// The lines of two files together are the lines of each; a line belongs to the stack exactly when its
/// first word is `auth` or `-auth`, and is then kept without its comment and the white space around it.
pub proof fn the_stack_is_read_line_by_line(
    upper: Seq<Seq<char>>,
    lower: Seq<Seq<char>>,
    line: Seq<char>,
)
    ensures
        auth_lines(upper + lower) == auth_lines(upper) + auth_lines(lower),
        ({
            let kept = text::trimmed(text::before(line, CharClass::Is('#')), CharClass::White);
            let words = text::words_of(kept, CharClass::AsciiWhite);
            let is_one = words.len() > 0 && (words[0] == "auth"@ || words[0] == "-auth"@);
            &&& is_one ==> auth_lines(seq![line]) == seq![kept]
            &&& !is_one ==> auth_lines(seq![line]) == Seq::<Seq<char>>::empty()
        }),
    decreases lower.len(),
{
    let alone = seq![line];
    assert(alone.drop_last() =~= seq![]);
    assert(auth_lines(alone.drop_last()) =~= seq![]);
    assert(auth_lines(alone) =~= (if is_auth(bare(line)) {
        seq![bare(line)]
    } else {
        seq![]
    }));
    let all = upper + lower;
    if lower.len() == 0 {
        assert(all =~= upper);
        assert(auth_lines(upper) + auth_lines(lower) =~= auth_lines(upper));
    } else {
        the_stack_is_read_line_by_line(upper, lower.drop_last(), line);
        assert(all.drop_last() =~= upper + lower.drop_last());
        assert(all.last() == lower.last());
        assert(auth_lines(all) =~= auth_lines(upper) + auth_lines(lower));
    }
}

/// A comment is not read: a line means what it means without it.
pub proof fn comments_are_not_read(line: Seq<char>, comment: Seq<char>)
    requires
        text::free_of(line, CharClass::Is('#')),
    ensures
        uncommented(line.push('#') + comment) == line,
        uncommented(line) == line,
        has_reference(line.push('#') + comment) == has_reference(line),
        has_grosshack(line.push('#') + comment) == has_grosshack(line),
        is_retry(line.push('#') + comment) == is_retry(line),
        pulled_in(line.push('#') + comment) == pulled_in(line),
        bare(line.push('#') + comment) == bare(line),
        !has_reference(seq!['#'] + comment),
{
    text::text_is_cut_at_the_first_of_a_class(line, '#', comment, CharClass::Is('#'));
    let full = line.push('#') + comment;
    assert(uncommented(full) == uncommented(line));
    assert(tokens(full) == tokens(line));
    let nothing = Seq::<char>::empty();
    text::text_is_cut_at_the_first_of_a_class(nothing, '#', comment, CharClass::Is('#'));
    assert(nothing.push('#') + comment =~= seq!['#'] + comment);
    text::trimming_takes_off_both_ends_alone(nothing, nothing, nothing, CharClass::White);
    assert(nothing + nothing + nothing =~= nothing);
    assert(tokens(seq!['#'] + comment) =~= seq![]);
}

proof fn lemma_last_piece(token: Seq<char>, name: Seq<char>)
    requires
        name.len() > 0,
        text::free_of(name, CharClass::Is('/')),
    ensures
        (token == name || text::ends(token, seq!['/'] + name)) <==> text::after_last(token, '/')
            == name,
    decreases token.len(),
{
    let class = CharClass::Is('/');
    let full = seq!['/'] + name;
    text::the_last_piece_follows_the_last_separator(Seq::empty(), '/', name);
    if text::ends(token, full) {
        let before = token.take(token.len() - full.len());
        assert(token =~= before.push('/') + name) by {
            assert forall|k: int| before.len() <= k < token.len() implies token[k] == full[k
                - before.len()] by {
                assert(token.skip(token.len() - full.len())[k - before.len()] == token[k]);
            }
        }
        text::the_last_piece_follows_the_last_separator(before, '/', name);
    }
    text::first_in_is_first(token, class);
    let i = text::first_in(token, class);
    if i < token.len() {
        let rest = token.skip(i + 1);
        lemma_last_piece(rest, name);
        if text::after_last(token, '/') == name {
            if rest == name {
                assert(token.skip(token.len() - full.len()) =~= full);
            } else {
                assert(rest.skip(rest.len() - full.len()) =~= token.skip(
                    token.len() - full.len(),
                ));
            }
        }
    }
}

/// A token names a Gaze module exactly when what follows its last slash is the module's file name, so
/// that the directory it is loaded from does not matter; a path to it is one that begins at the root.
pub proof fn modules_go_by_their_file_names(token: Seq<char>)
    ensures
        names_grosshack(token) <==> text::after_last(token, '/') == "pam_gaze_grosshack.so"@,
        names_gaze(token) <==> (text::after_last(token, '/') == "pam_gaze.so"@ || text::after_last(
            token,
            '/',
        ) == "pam_gaze_grosshack.so"@),
        is_module_path(token) <==> token.len() > 0 && token[0] == '/' && names_gaze(token),
{
    reveal_strlit("pam_gaze.so");
    reveal_strlit("pam_gaze_grosshack.so");
    reveal_strlit("/pam_gaze.so");
    reveal_strlit("/pam_gaze_grosshack.so");
    reveal_strlit("/");
    assert("/pam_gaze.so"@ =~= seq!['/'] + "pam_gaze.so"@);
    assert("/pam_gaze_grosshack.so"@ =~= seq!['/'] + "pam_gaze_grosshack.so"@);
    lemma_last_piece(token, "pam_gaze.so"@);
    lemma_last_piece(token, "pam_gaze_grosshack.so"@);
    if token.len() > 0 {
        assert(token.take(1)[0] == token[0]);
        if token[0] == '/' {
            assert(token.take(1) =~= "/"@);
            assert(token != "pam_gaze.so"@ && token != "pam_gaze_grosshack.so"@);
        }
    }
}

/// A line loads Gaze exactly when one of its words names a module of it, and a file exactly when one
/// of its lines does. A retry is such a line with the word for it.
pub proof fn a_file_loads_gaze_by_a_word_of_a_line(contents: Seq<char>, line: Seq<char>)
    ensures
        ({
            let read = text::before(line, CharClass::Is('#'));
            let words = text::words_of(
                text::trimmed(read, CharClass::White),
                CharClass::AsciiWhite,
            );
            &&& has_reference(line) <==> exists|i: int|
                0 <= i < words.len() && names_gaze(#[trigger] words[i])
            &&& has_grosshack(line) <==> exists|i: int|
                0 <= i < words.len() && names_grosshack(#[trigger] words[i])
            &&& is_retry(line) <==> has_reference(line) && exists|i: int|
                0 <= i < text::words_of(read, CharClass::AsciiWhite).len()
                    && #[trigger] text::words_of(read, CharClass::AsciiWhite)[i] == "retry"@
        }),
        has_grosshack(line) ==> has_reference(line),
        file_has_reference(contents) <==> exists|l: Seq<char>|
            #[trigger] text::lines_of(contents).contains(l) && has_reference(l),
        file_has_grosshack(contents) <==> exists|l: Seq<char>|
            #[trigger] text::lines_of(contents).contains(l) && has_grosshack(l),
{
    let lines = text::lines_of(contents);
    let read = text::before(line, CharClass::Is('#'));
    let words = text::words_of(text::trimmed(read, CharClass::White), CharClass::AsciiWhite);
    assert(tokens(line) == words);
    assert(has_reference(line) <==> exists|i: int|
        0 <= i < words.len() && names_gaze(#[trigger] words[i]));
    assert(has_grosshack(line) <==> exists|i: int|
        0 <= i < words.len() && names_grosshack(#[trigger] words[i]));
    let all = text::words_of(read, CharClass::AsciiWhite);
    assert(all.contains("retry"@) <==> exists|i: int|
        0 <= i < all.len() && #[trigger] all[i] == "retry"@);
    if has_grosshack(line) {
        let i = choose|i: int|
            0 <= i < tokens(line).len() && names_grosshack(#[trigger] tokens(line)[i]);
        assert(names_gaze(tokens(line)[i]));
    }
    if file_has_reference(contents) {
        let i = choose|i: int| 0 <= i < lines.len() && has_reference(#[trigger] lines[i]);
        assert(lines.contains(lines[i]));
    }
    if file_has_grosshack(contents) {
        let i = choose|i: int| 0 <= i < lines.len() && has_grosshack(#[trigger] lines[i]);
        assert(lines.contains(lines[i]));
    }
}

/// What a line pulls in: the second word after `@include`, the third after `include` or `substack` in
/// the second place, and nothing otherwise.
pub proof fn includes_name_their_target(line: Seq<char>, target: Seq<char>)
    ensures
        ({
            let words = text::words_of(
                text::before(line, CharClass::Is('#')),
                CharClass::AsciiWhite,
            );
            pulled_in(line) == Some(target) <==> {
                ||| words.len() >= 2 && words[0] == "@include"@ && words[1] == target
                ||| words.len() >= 3 && words[0] != "@include"@ && (words[1] == "include"@
                    || words[1] == "substack"@) && words[2] == target
            }
        }),
{
}

/// The targets of two lists of lines are those of the one and then those of the other, and a line has
/// at most one.
pub proof fn targets_come_in_the_order_of_the_lines(
    upper: Seq<Seq<char>>,
    lower: Seq<Seq<char>>,
    line: Seq<char>,
)
    ensures
        all_pulled_in(upper + lower) == all_pulled_in(upper) + all_pulled_in(lower),
        all_pulled_in(seq![line]) == (match pulled_in(line) {
            Some(target) => seq![target],
            None => seq![],
        }),
    decreases lower.len(),
{
    let alone = seq![line];
    assert(alone.drop_last() =~= seq![]);
    assert(all_pulled_in(alone.drop_last()) =~= seq![]);
    let all = upper + lower;
    if lower.len() == 0 {
        assert(all =~= upper);
        assert(all_pulled_in(upper) + all_pulled_in(lower) =~= all_pulled_in(upper));
    } else {
        targets_come_in_the_order_of_the_lines(upper, lower.drop_last(), line);
        assert(all.drop_last() =~= upper + lower.drop_last());
        assert(all.last() == lower.last());
        assert(all_pulled_in(all) =~= all_pulled_in(upper) + all_pulled_in(lower));
    }
}

/// The paths among words are found in each part alone, and a word is one of them exactly when it is a
/// path to a module.
pub proof fn module_paths_are_found_word_by_word(
    left: Seq<Seq<char>>,
    right: Seq<Seq<char>>,
    word: Seq<char>,
)
    ensures
        module_paths(left + right) == module_paths(left) + module_paths(right),
        is_module_path(word) ==> module_paths(seq![word]) == seq![word],
        !is_module_path(word) ==> module_paths(seq![word]) == Seq::<Seq<char>>::empty(),
    decreases right.len(),
{
    let alone = seq![word];
    assert(alone.drop_last() =~= seq![]);
    assert(module_paths(alone.drop_last()) =~= seq![]);
    assert(seq![].push(word) =~= alone);
    let all = left + right;
    if right.len() == 0 {
        assert(all =~= left);
        assert(module_paths(left) + module_paths(right) =~= module_paths(left));
    } else {
        module_paths_are_found_word_by_word(left, right.drop_last(), word);
        assert(all.drop_last() =~= left + right.drop_last());
        assert(all.last() == right.last());
        assert(module_paths(all) =~= module_paths(left) + module_paths(right));
    }
}

/// A service's text is that of the first file of its name, and a name without a file has none.
pub proof fn a_service_is_its_first_file(services: Seq<Service>, name: Seq<char>)
    ensures
        match contents_of(services, name) {
            Some(contents) => exists|i: int|
                {
                    &&& 0 <= i < services.len()
                    &&& (#[trigger] services[i]).name@ == name
                    &&& services[i].contents@ == contents
                    &&& forall|j: int| 0 <= j < i ==> (#[trigger] services[j]).name@ != name
                },
            None => forall|i: int| 0 <= i < services.len() ==> (#[trigger] services[i]).name@ != name,
        },
    decreases services.len(),
{
    if services.len() > 0 && services[0].name@ != name {
        let rest = services.skip(1);
        a_service_is_its_first_file(rest, name);
        match contents_of(services, name) {
            Some(contents) => {
                let i = choose|i: int|
                    {
                        &&& 0 <= i < rest.len()
                        &&& (#[trigger] rest[i]).name@ == name
                        &&& rest[i].contents@ == contents
                        &&& forall|j: int| 0 <= j < i ==> (#[trigger] rest[j]).name@ != name
                    };
                assert(services[i + 1] == rest[i]);
                assert forall|j: int| 0 <= j < i + 1 implies (#[trigger] services[j]).name@
                    != name by {
                    if j > 0 {
                        assert(services[j] == rest[j - 1]);
                    }
                }
            },
            None => {
                assert forall|i: int| 0 <= i < services.len() implies (#[trigger] services[i]).name@
                    != name by {
                    if i > 0 {
                        assert(services[i] == rest[i - 1]);
                    }
                }
            },
        }
    } else if services.len() > 0 {
        assert(services[0].name@ == name);
    }
}

/// Each service exists and pulls in the next.
pub open spec fn is_chain(services: Seq<Service>, names: Seq<Seq<char>>) -> bool {
    &&& forall|k: int| 0 <= k < names.len() ==> contents_of(services, #[trigger] names[k]) is Some
    &&& forall|k: int|
        0 < k < names.len() ==> all_pulled_in(
            text::lines_of(contents_of(services, names[k - 1])->0),
        ).contains(#[trigger] names[k])
}

/// A chain from one service to one that loads Gaze itself.
pub open spec fn leads_to_gaze(
    services: Seq<Service>,
    name: Seq<char>,
    names: Seq<Seq<char>>,
) -> bool {
    &&& names.len() > 0
    &&& names[0] == name
    &&& is_chain(services, names)
    &&& file_has_reference(contents_of(services, names.last())->0)
}

/// A service reaches Gaze exactly when a chain of services that pull each other in, no longer than the
/// depth allows, leads to one that loads it.
pub proof fn reaching_is_following_a_chain(services: Seq<Service>, name: Seq<char>, depth: nat)
    ensures
        reaches(services, name, depth) <==> exists|names: Seq<Seq<char>>|
            names.len() <= depth + 1 && #[trigger] leads_to_gaze(services, name, names),
    decreases depth,
{
    if reaches(services, name, depth) {
        lemma_reaching_has_a_chain(services, name, depth);
    }
    assert forall|names: Seq<Seq<char>>|
        names.len() <= depth + 1 && #[trigger] leads_to_gaze(
            services,
            name,
            names,
        ) implies reaches(services, name, depth) by {
        lemma_a_chain_reaches(services, name, names, depth);
    }
}

proof fn lemma_reaching_has_a_chain(services: Seq<Service>, name: Seq<char>, depth: nat)
    requires
        reaches(services, name, depth),
    ensures
        exists|names: Seq<Seq<char>>|
            names.len() <= depth + 1 && #[trigger] leads_to_gaze(services, name, names),
    decreases depth,
{
    let contents = contents_of(services, name)->0;
    if file_has_reference(contents) {
        assert(leads_to_gaze(services, name, seq![name]));
    } else {
        let wanted = all_pulled_in(text::lines_of(contents));
        let i = choose|i: int|
            0 <= i < wanted.len() && reaches(services, #[trigger] wanted[i], (depth - 1) as nat);
        lemma_reaching_has_a_chain(services, wanted[i], (depth - 1) as nat);
        let further = choose|names: Seq<Seq<char>>|
            names.len() <= depth && #[trigger] leads_to_gaze(services, wanted[i], names);
        let names = seq![name] + further;
        assert(names.last() == further.last());
        assert forall|k: int| 0 <= k < names.len() implies contents_of(
            services,
            #[trigger] names[k],
        ) is Some by {
            if k > 0 {
                assert(names[k] == further[k - 1]);
            }
        }
        assert forall|k: int| 0 < k < names.len() implies all_pulled_in(
            text::lines_of(contents_of(services, names[k - 1])->0),
        ).contains(#[trigger] names[k]) by {
            assert(names[k] == further[k - 1]);
            if k > 1 {
                assert(names[k - 1] == further[k - 2]);
            } else {
                assert(names[1] == wanted[i]);
            }
        }
        assert(leads_to_gaze(services, name, names));
    }
}

proof fn lemma_a_chain_reaches(
    services: Seq<Service>,
    name: Seq<char>,
    names: Seq<Seq<char>>,
    depth: nat,
)
    requires
        names.len() <= depth + 1,
        leads_to_gaze(services, name, names),
    ensures
        reaches(services, name, depth),
    decreases depth,
{
    assert(contents_of(services, names[0]) is Some);
    let contents = contents_of(services, name)->0;
    if names.len() > 1 {
        let further = names.skip(1);
        assert(further.last() == names.last());
        assert forall|k: int| 0 <= k < further.len() implies contents_of(
            services,
            #[trigger] further[k],
        ) is Some by {
            assert(further[k] == names[k + 1]);
        }
        assert forall|k: int| 0 < k < further.len() implies all_pulled_in(
            text::lines_of(contents_of(services, further[k - 1])->0),
        ).contains(#[trigger] further[k]) by {
            assert(further[k] == names[k + 1]);
            assert(further[k - 1] == names[k]);
        }
        lemma_a_chain_reaches(services, further[0], further, (depth - 1) as nat);
        let wanted = all_pulled_in(text::lines_of(contents));
        assert(wanted.contains(names[1]));
        let i = choose|i: int| 0 <= i < wanted.len() && wanted[i] == names[1];
        assert(reaches(services, wanted[i], (depth - 1) as nat));
    } else {
        assert(names.last() == name);
    }
}

/// A retry is misplaced exactly while no line above it asks for a password: one on top is, one below
/// a password line is not, and other lines on top change nothing.
pub proof fn a_retry_belongs_below_the_password(line: Seq<char>, stack: Seq<Seq<char>>)
    ensures
        is_retry(line) ==> retry_is_misplaced(seq![line] + stack),
        !is_retry(line) && text::mentions(line, "pam_unix.so"@) ==> !retry_is_misplaced(
            seq![line] + stack,
        ),
        !is_retry(line) && !text::mentions(line, "pam_unix.so"@) ==> retry_is_misplaced(
            seq![line] + stack,
        ) == retry_is_misplaced(stack),
        !retry_is_misplaced(seq![]),
{
    let all = seq![line] + stack;
    assert(all[0] == line);
    if !is_retry(line) && !text::mentions(line, "pam_unix.so"@) {
        if retry_is_misplaced(all) {
            let i = choose|i: int|
                0 <= i < all.len() && is_retry(#[trigger] all[i]) && forall|j: int|
                    0 <= j < i ==> !is_retry(#[trigger] all[j]) && !text::mentions(
                        all[j],
                        PAM_PASSWORD_MODULE@,
                    );
            assert(all[i] == stack[i - 1]);
            assert forall|j: int| 0 <= j < i - 1 implies !is_retry(#[trigger] stack[j])
                && !text::mentions(stack[j], PAM_PASSWORD_MODULE@) by {
                assert(all[j + 1] == stack[j]);
            }
        }
        if retry_is_misplaced(stack) {
            let i = choose|i: int|
                0 <= i < stack.len() && is_retry(#[trigger] stack[i]) && forall|j: int|
                    0 <= j < i ==> !is_retry(#[trigger] stack[j]) && !text::mentions(
                        stack[j],
                        PAM_PASSWORD_MODULE@,
                    );
            assert(all[i + 1] == stack[i]);
            assert forall|j: int| 0 <= j < i + 1 implies !is_retry(#[trigger] all[j])
                && !text::mentions(all[j], PAM_PASSWORD_MODULE@) by {
                if j > 0 {
                    assert(all[j] == stack[j - 1]);
                }
            }
        }
    }
}

} // verus!
