//! What a PAM stack does with a face match: which slot starts Gaze, and whether the password it
//! releases is handed on to a keyring.

use crate::pam;
use crate::pam::{KDE_FACE_PAM_FILE, KDE_SMARTCARD_PAM_FILE};
use crate::text;
use crate::text::CharClass;
use vstd::prelude::*;
use vstd::slice::slice_subrange;

verus! {

/// One line of a PAM stack.
pub struct Entry {
    pub kind: Seq<char>,
    pub control: Seq<char>,
    pub module: Seq<char>,
    pub options: Seq<char>,
}

/// The control field and what follows it: a bracketed list, or one word.
pub open spec fn control_split(rest: Seq<char>) -> Option<(Seq<char>, Seq<char>)> {
    if rest.len() > 0 && rest[0] == '[' {
        let i = text::first_in(rest, CharClass::Is(']'));
        if i < rest.len() {
            Some((rest.take(i + 1), rest.skip(i + 1)))
        } else {
            None
        }
    } else {
        text::split_first(rest, CharClass::White)
    }
}

/// The entry that a line writes. A whole file pulled in also takes part in `auth`, so it counts as
/// an entry of that kind.
pub open spec fn entry_of(line: Seq<char>) -> Option<Entry> {
    match text::split_first(pam::bare(line), CharClass::White) {
        None => None,
        Some((kind, rest)) => {
            let rest = text::trimmed_front(rest, CharClass::White);
            if kind == "@include"@ {
                Some(Entry { kind: "auth"@, control: "include"@, module: rest, options: ""@ })
            } else {
                match control_split(rest) {
                    None => None,
                    Some((control, tail)) => {
                        let tail = text::trimmed_front(tail, CharClass::White);
                        let (module, options) = match text::split_first(tail, CharClass::White) {
                            Some((module, options)) => (module, options),
                            None => (tail, ""@),
                        };
                        Some(
                            Entry {
                                kind: text::trimmed_front(kind, CharClass::Is('-')),
                                control,
                                module: text::after_last(module, '/'),
                                options,
                            },
                        )
                    },
                }
            }
        },
    }
}

/// The entries of a file.
pub open spec fn entries_of(lines: Seq<Seq<char>>) -> Seq<Entry>
    decreases lines.len(),
{
    if lines.len() == 0 {
        seq![]
    } else {
        match entry_of(lines.last()) {
            Some(entry) => entries_of(lines.drop_last()).push(entry),
            None => entries_of(lines.drop_last()),
        }
    }
}

/// The entries of one kind.
pub open spec fn of_kind(entries: Seq<Entry>, kind: Seq<char>) -> Seq<Entry>
    decreases entries.len(),
{
    if entries.len() == 0 {
        seq![]
    } else if entries.last().kind == kind {
        of_kind(entries.drop_last(), kind).push(entries.last())
    } else {
        of_kind(entries.drop_last(), kind)
    }
}

/// A parsed line of a PAM stack.
pub struct PamEntry {
    pub kind: Vec<char>,
    pub control: Vec<char>,
    pub module: Vec<char>,
    pub options: Vec<char>,
}

impl View for PamEntry {
    type V = Entry;

    open spec fn view(&self) -> Entry {
        Entry {
            kind: self.kind@,
            control: self.control@,
            module: self.module@,
            options: self.options@,
        }
    }
}

pub open spec fn entry_views(entries: Seq<PamEntry>) -> Seq<Entry> {
    Seq::new(entries.len(), |i: int| entries[i]@)
}

fn owned(s: &[char]) -> (r: Vec<char>)
    ensures
        r@ == s@,
{
    let mut r: Vec<char> = Vec::new();
    r.extend_from_slice(s);
    proof {
        assert(r@ =~= s@);
    }
    r
}

fn split_control(rest: &[char]) -> (r: Option<(&[char], &[char])>)
    ensures
        text::pair_view(r) == control_split(rest@),
{
    if rest.len() > 0 && rest[0] == '[' {
        let i: usize = text::find(rest, CharClass::Is(']'));
        proof {
            text::first_in_is_first(rest@, CharClass::Is(']'));
        }
        if i < rest.len() {
            proof {
                assert(rest@.subrange(0, i as int + 1) =~= rest@.take(i as int + 1));
                assert(rest@.subrange(i as int + 1, rest@.len() as int) =~= rest@.skip(
                    i as int + 1,
                ));
            }
            Some((slice_subrange(rest, 0, i + 1), slice_subrange(rest, i + 1, rest.len())))
        } else {
            None
        }
    } else {
        text::split_once(rest, CharClass::White)
    }
}

pub open spec fn entry_view(entry: Option<PamEntry>) -> Option<Entry> {
    match entry {
        Some(entry) => Some(entry@),
        None => None,
    }
}

fn parse_entry(line: &[char]) -> (r: Option<PamEntry>)
    ensures
        entry_view(r) == entry_of(line@),
{
    let line = text::trim(text::cut_before(line, CharClass::Is('#')), CharClass::White);
    match text::split_once(line, CharClass::White) {
        None => None,
        Some((kind, rest)) => {
            let rest = text::trim_front(rest, CharClass::White);
            if text::is_text(kind, "@include") {
                return Some(
                    PamEntry {
                        kind: text::chars("auth"),
                        control: text::chars("include"),
                        module: owned(rest),
                        options: text::chars(""),
                    },
                );
            }
            match split_control(rest) {
                None => None,
                Some((control, tail)) => {
                    let tail = text::trim_front(tail, CharClass::White);
                    let kind = owned(text::trim_front(kind, CharClass::Is('-')));
                    let control = owned(control);
                    match text::split_once(tail, CharClass::White) {
                        Some((module, options)) => Some(
                            PamEntry {
                                kind,
                                control,
                                module: owned(text::last_piece(module, '/')),
                                options: owned(options),
                            },
                        ),
                        None => Some(
                            PamEntry {
                                kind,
                                control,
                                module: owned(text::last_piece(tail, '/')),
                                options: text::chars(""),
                            },
                        ),
                    }
                },
            }
        },
    }
}

pub fn pam_entry(line: &str) -> (r: Option<PamEntry>)
    ensures
        entry_view(r) == entry_of(line@),
{
    parse_entry(text::chars(line).as_slice())
}

fn parse_entries(contents: &str) -> (r: Vec<PamEntry>)
    ensures
        entry_views(r@) == entries_of(text::lines_of(contents@)),
{
    let contents_chars = text::chars(contents);
    let lines = text::lines(contents_chars.as_slice());
    let ghost all = text::lines_of(contents@);
    let mut r: Vec<PamEntry> = Vec::new();
    proof {
        assert(entry_views(r@) =~= entries_of(all.take(0)));
    }
    for i in 0..lines.len()
        invariant
            text::views(lines@) == all,
            entry_views(r@) == entries_of(all.take(i as int)),
    {
        proof {
            assert(text::views(lines@)[i as int] == lines@[i as int]@);
            text::lemma_take_push(all, i as int);
        }
        if let Some(entry) = parse_entry(lines[i]) {
            let ghost before = r@;
            r.push(entry);
            proof {
                assert(entry_views(r@) =~= entry_views(before).push(entry@));
            }
        }
    }
    proof {
        assert(all.take(lines@.len() as int) =~= all);
    }
    r
}

/// Where the entries of one kind stand.
pub open spec fn picked(entries: Seq<Entry>, at: Seq<usize>) -> Seq<Entry> {
    Seq::new(at.len(), |i: int| entries[at[i] as int])
}

fn auth_positions(entries: &Vec<PamEntry>) -> (r: Vec<usize>)
    ensures
        forall|i: int| 0 <= i < r@.len() ==> #[trigger] r@[i] < entries@.len(),
        picked(entry_views(entries@), r@) == of_kind(entry_views(entries@), "auth"@),
{
    let mut r: Vec<usize> = Vec::new();
    let ghost all = entry_views(entries@);
    proof {
        assert(picked(all, r@) =~= of_kind(all.take(0), "auth"@));
    }
    for i in 0..entries.len()
        invariant
            all == entry_views(entries@),
            forall|j: int| 0 <= j < r@.len() ==> #[trigger] r@[j] < entries@.len(),
            picked(all, r@) == of_kind(all.take(i as int), "auth"@),
    {
        proof {
            assert(all[i as int] == entries@[i as int]@);
            text::lemma_take_push(all, i as int);
        }
        if text::is_text(entries[i].kind.as_slice(), "auth") {
            let ghost before = r@;
            r.push(i);
            proof {
                assert(picked(all, r@) =~= picked(all, before).push(all[i as int]));
            }
        }
    }
    proof {
        assert(all.take(entries@.len() as int) =~= all);
    }
    r
}

/// The words of an option or control field.
pub open spec fn field_words(field: Seq<char>) -> Seq<Seq<char>> {
    text::words_of(field, CharClass::AsciiWhite)
}

pub open spec fn has_option_starting(field: Seq<char>, prefix: Seq<char>) -> bool {
    exists|i: int|
        0 <= i < field_words(field).len() && text::starts(#[trigger] field_words(field)[i], prefix)
}

fn field_has(field: &Vec<char>, word: &str) -> (r: bool)
    ensures
        r == field_words(field@).contains(word@),
{
    let words = text::words(field.as_slice(), CharClass::AsciiWhite);
    for i in 0..words.len()
        invariant
            text::views(words@) == field_words(field@),
            forall|j: int| 0 <= j < i ==> field_words(field@)[j] != word@,
    {
        proof {
            assert(text::views(words@)[i as int] == words@[i as int]@);
        }
        if text::is_text(words[i], word) {
            return true;
        }
    }
    false
}

fn field_has_start(field: &Vec<char>, prefix: &str) -> (r: bool)
    ensures
        r == has_option_starting(field@, prefix@),
{
    let words = text::words(field.as_slice(), CharClass::AsciiWhite);
    for i in 0..words.len()
        invariant
            text::views(words@) == field_words(field@),
            forall|j: int| 0 <= j < i ==> !text::starts(#[trigger] field_words(field@)[j], prefix@),
    {
        proof {
            assert(text::views(words@)[i as int] == words@[i as int]@);
        }
        if text::starts_with_str(words[i], prefix) {
            return true;
        }
    }
    false
}

fn field_is_word(field: &Vec<char>, word: &str) -> (r: bool)
    ensures
        r == (field_words(field@) == seq![word@]),
{
    let words = text::words(field.as_slice(), CharClass::AsciiWhite);
    let ghost seen = text::views(words@);
    if words.len() != 1 {
        proof {
            assert(seen.len() != seq![word@].len());
        }
        return false;
    }
    proof {
        assert(seen[0] == words@[0]@);
    }
    if text::is_text(words[0], word) {
        proof {
            assert(seen =~= seq![word@]);
        }
        true
    } else {
        proof {
            assert(seq![word@][0] == word@);
        }
        false
    }
}

fn field_is_pair(field: &Vec<char>, first: &str, second: &str) -> (r: bool)
    ensures
        r == (field_words(field@) == seq![first@, second@]),
{
    let words = text::words(field.as_slice(), CharClass::AsciiWhite);
    let ghost seen = text::views(words@);
    if words.len() != 2 {
        proof {
            assert(seen.len() != seq![first@, second@].len());
        }
        return false;
    }
    proof {
        assert(seen[0] == words@[0]@);
        assert(seen[1] == words@[1]@);
    }
    if text::is_text(words[0], first) && text::is_text(words[1], second) {
        proof {
            assert(seen =~= seq![first@, second@]);
        }
        true
    } else {
        proof {
            assert(seq![first@, second@][0] == first@);
            assert(seq![first@, second@][1] == second@);
        }
        false
    }
}

/// A sequential Gaze line that skips the denial after it and lets GNOME Keyring take the password.
pub open spec fn gnome_handoff(gaze: Entry, deny: Entry, keyring: Entry) -> bool {
    &&& gaze.module == "pam_gaze.so"@
    &&& field_words(gaze.control) == seq!["[success=1"@, "default=ignore]"@]
    &&& !field_words(gaze.options).contains("simultaneous"@)
    &&& deny.control == "requisite"@
    &&& deny.module == "pam_deny.so"@
    &&& keyring.control == "optional"@
    &&& keyring.module == "pam_gnome_keyring.so"@
    &&& field_words(keyring.options).contains("use_authtok"@)
    &&& !field_words(keyring.options).contains("auto_start"@)
    &&& !has_option_starting(keyring.options, "only_if="@)
}

/// The session line that starts GNOME Keyring.
pub open spec fn gnome_session(entry: Entry) -> bool {
    &&& entry.kind == "session"@
    &&& entry.control == "optional"@ || entry.control == "required"@
    &&& entry.module == "pam_gnome_keyring.so"@
    &&& field_words(entry.options).contains("auto_start"@)
    &&& !has_option_starting(entry.options, "only_if="@)
}

/// The packaged hand-off, with the session hook that starts the keyring.
pub open spec fn gnome_stack(entries: Seq<Entry>) -> bool {
    let auth = of_kind(entries, "auth"@);
    &&& exists|i: int|
        0 <= i && i + 2 < auth.len() && gnome_handoff(
            #[trigger] auth[i],
            auth[i + 1],
            auth[i + 2],
        )
    &&& exists|i: int| 0 <= i < entries.len() && gnome_session(#[trigger] entries[i])
}

fn is_gnome_handoff(gaze: &PamEntry, deny: &PamEntry, keyring: &PamEntry) -> (r: bool)
    ensures
        r == gnome_handoff(gaze@, deny@, keyring@),
{
    text::is_text(gaze.module.as_slice(), "pam_gaze.so") && field_is_pair(
        &gaze.control,
        "[success=1",
        "default=ignore]",
    ) && !field_has(&gaze.options, "simultaneous") && text::is_text(
        deny.control.as_slice(),
        "requisite",
    ) && text::is_text(deny.module.as_slice(), "pam_deny.so") && text::is_text(
        keyring.control.as_slice(),
        "optional",
    ) && text::is_text(keyring.module.as_slice(), "pam_gnome_keyring.so") && field_has(
        &keyring.options,
        "use_authtok",
    ) && !field_has(&keyring.options, "auto_start") && !field_has_start(
        &keyring.options,
        "only_if=",
    )
}

fn is_gnome_session(entry: &PamEntry) -> (r: bool)
    ensures
        r == gnome_session(entry@),
{
    text::is_text(entry.kind.as_slice(), "session") && (text::is_text(
        entry.control.as_slice(),
        "optional",
    ) || text::is_text(entry.control.as_slice(), "required")) && text::is_text(
        entry.module.as_slice(),
        "pam_gnome_keyring.so",
    ) && field_has(&entry.options, "auto_start") && !field_has_start(&entry.options, "only_if=")
}

/// Whether a GDM face stack passes the released password to GNOME Keyring.
pub fn gdm_face_stack_passes_the_token(contents: &str) -> (r: bool)
    ensures
        r == gnome_stack(entries_of(text::lines_of(contents@))),
{
    let entries = parse_entries(contents);
    let at = auth_positions(&entries);
    let ghost all = entry_views(entries@);
    let ghost auth = of_kind(all, "auth"@);
    let mut handoff = false;
    let mut i: usize = 0;
    while at.len() > 2 && i < at.len() - 2
        invariant
            all == entry_views(entries@),
            auth == of_kind(all, "auth"@),
            picked(all, at@) == auth,
            forall|j: int| 0 <= j < at@.len() ==> #[trigger] at@[j] < entries@.len(),
            handoff == exists|j: int|
                0 <= j < i && j + 2 < auth.len() && gnome_handoff(
                    #[trigger] auth[j],
                    auth[j + 1],
                    auth[j + 2],
                ),
        decreases at@.len() - i,
    {
        proof {
            assert(auth[i as int] == all[at@[i as int] as int]);
            assert(auth[i as int + 1] == all[at@[i as int + 1] as int]);
            assert(auth[i as int + 2] == all[at@[i as int + 2] as int]);
        }
        if is_gnome_handoff(&entries[at[i]], &entries[at[i + 1]], &entries[at[i + 2]]) {
            handoff = true;
        }
        i = i + 1;
    }
    let mut session = false;
    for k in 0..entries.len()
        invariant
            all == entry_views(entries@),
            session == exists|j: int| 0 <= j < k && gnome_session(#[trigger] all[j]),
    {
        proof {
            assert(all[k as int] == entries@[k as int]@);
        }
        if is_gnome_session(&entries[k]) {
            session = true;
        }
    }
    handoff && session
}

/// The managed KWallet branch: no wallet hook is reachable when the face does not match.
pub open spec fn kde_handoff(gaze: Entry, skip: Entry, wallet: Entry, done: Entry) -> bool {
    &&& gaze.module == "pam_gaze.so"@
    &&& field_words(gaze.control) == seq!["[success=1"@, "default=ignore]"@] || field_words(
        gaze.control,
    ) == seq!["[success=1"@, "default=die]"@]
    &&& field_words(gaze.options) == seq!["kde-login"@]
    &&& field_words(skip.control) == seq!["[success=2"@, "default=ignore]"@]
    &&& skip.module == "pam_permit.so"@
    &&& wallet.control == "optional"@
    &&& wallet.module == "pam_kwallet5.so"@
    &&& wallet.options.len() == 0
    &&& field_words(done.control) == seq!["[success=done"@, "default=ignore]"@]
    &&& done.module == "pam_permit.so"@
}

pub open spec fn kde_session(entry: Entry) -> bool {
    &&& entry.kind == "session"@
    &&& entry.control == "optional"@
    &&& entry.module == "pam_kwallet5.so"@
    &&& field_words(entry.options) == seq!["auto_start"@]
}

pub open spec fn kde_stack(entries: Seq<Entry>) -> bool {
    let auth = of_kind(entries, "auth"@);
    &&& exists|i: int|
        0 <= i && i + 3 < auth.len() && kde_handoff(
            #[trigger] auth[i],
            auth[i + 1],
            auth[i + 2],
            auth[i + 3],
        )
    &&& exists|i: int| 0 <= i < entries.len() && kde_session(#[trigger] entries[i])
}

fn is_kde_handoff(gaze: &PamEntry, skip: &PamEntry, wallet: &PamEntry, done: &PamEntry) -> (r: bool)
    ensures
        r == kde_handoff(gaze@, skip@, wallet@, done@),
{
    text::is_text(gaze.module.as_slice(), "pam_gaze.so") && (field_is_pair(
        &gaze.control,
        "[success=1",
        "default=ignore]",
    ) || field_is_pair(&gaze.control, "[success=1", "default=die]")) && field_is_word(
        &gaze.options,
        "kde-login",
    ) && field_is_pair(&skip.control, "[success=2", "default=ignore]") && text::is_text(
        skip.module.as_slice(),
        "pam_permit.so",
    ) && text::is_text(wallet.control.as_slice(), "optional") && text::is_text(
        wallet.module.as_slice(),
        "pam_kwallet5.so",
    ) && wallet.options.len() == 0 && field_is_pair(
        &done.control,
        "[success=done",
        "default=ignore]",
    ) && text::is_text(done.module.as_slice(), "pam_permit.so")
}

fn is_kde_session(entry: &PamEntry) -> (r: bool)
    ensures
        r == kde_session(entry@),
{
    text::is_text(entry.kind.as_slice(), "session") && text::is_text(
        entry.control.as_slice(),
        "optional",
    ) && text::is_text(entry.module.as_slice(), "pam_kwallet5.so") && field_is_word(
        &entry.options,
        "auto_start",
    )
}

/// Whether a KDE login stack passes the released password to KWallet.
pub fn kde_login_stack_passes_the_token(contents: &str) -> (r: bool)
    ensures
        r == kde_stack(entries_of(text::lines_of(contents@))),
{
    let entries = parse_entries(contents);
    let at = auth_positions(&entries);
    let ghost all = entry_views(entries@);
    let ghost auth = of_kind(all, "auth"@);
    let mut handoff = false;
    let mut i: usize = 0;
    while at.len() > 3 && i < at.len() - 3
        invariant
            all == entry_views(entries@),
            auth == of_kind(all, "auth"@),
            picked(all, at@) == auth,
            forall|j: int| 0 <= j < at@.len() ==> #[trigger] at@[j] < entries@.len(),
            handoff == exists|j: int|
                0 <= j < i && j + 3 < auth.len() && kde_handoff(
                    #[trigger] auth[j],
                    auth[j + 1],
                    auth[j + 2],
                    auth[j + 3],
                ),
        decreases at@.len() - i,
    {
        proof {
            assert(auth[i as int] == all[at@[i as int] as int]);
            assert(auth[i as int + 1] == all[at@[i as int + 1] as int]);
            assert(auth[i as int + 2] == all[at@[i as int + 2] as int]);
            assert(auth[i as int + 3] == all[at@[i as int + 3] as int]);
        }
        if is_kde_handoff(
            &entries[at[i]],
            &entries[at[i + 1]],
            &entries[at[i + 2]],
            &entries[at[i + 3]],
        ) {
            handoff = true;
        }
        i = i + 1;
    }
    let mut session = false;
    for k in 0..entries.len()
        invariant
            all == entry_views(entries@),
            session == exists|j: int| 0 <= j < k && kde_session(#[trigger] all[j]),
    {
        proof {
            assert(all[k as int] == entries@[k as int]@);
        }
        if is_kde_session(&entries[k]) {
            session = true;
        }
    }
    handoff && session
}

#[derive(Debug, Clone, Copy, PartialEq, Eq, Structural)]
pub enum KdeLockStatus {
    Wired,
    /// The simultaneous module, which deadlocks on this slot.
    Grosshack,
    NotWired,
    /// KScreenLocker has no biometric slot configured at all.
    NoService,
}

/// A line of the `auth` stack, `-auth` included: a missing module is then skipped.
pub open spec fn slot_line(line: Seq<char>) -> bool {
    let words = text::words_of(pam::uncommented(line), CharClass::White);
    words.len() > 0 && (words[0] == "auth"@ || words[0] == "-auth"@)
}

pub open spec fn simultaneous(line: Seq<char>) -> bool {
    text::mentions(line, "pam_gaze_grosshack.so"@) || (pam::has_reference(line)
        && text::words_of(line, CharClass::White).contains("simultaneous"@))
}

pub open spec fn status_of(contents: Seq<char>) -> KdeLockStatus {
    let lines = text::lines_of(contents);
    if exists|i: int|
        0 <= i < lines.len() && slot_line(#[trigger] lines[i]) && simultaneous(lines[i]) {
        KdeLockStatus::Grosshack
    } else if exists|i: int|
        0 <= i < lines.len() && slot_line(#[trigger] lines[i]) && pam::has_reference(lines[i]) {
        KdeLockStatus::Wired
    } else {
        KdeLockStatus::NotWired
    }
}

pub open spec fn slot_state(slot: Option<Seq<char>>) -> KdeLockStatus {
    match slot {
        Some(contents) => status_of(contents),
        None => KdeLockStatus::NoService,
    }
}

fn is_slot_line(line: &[char]) -> (r: bool)
    ensures
        r == slot_line(line@),
{
    let words = text::words(text::cut_before(line, CharClass::Is('#')), CharClass::White);
    if words.len() == 0 {
        return false;
    }
    proof {
        assert(text::views(words@)[0] == words@[0]@);
    }
    text::is_text(words[0], "auth") || text::is_text(words[0], "-auth")
}

fn is_simultaneous(line: &[char]) -> (r: bool)
    ensures
        r == simultaneous(line@),
{
    if text::contains(line, "pam_gaze_grosshack.so") {
        return true;
    }
    if !pam::line_has_reference(line) {
        return false;
    }
    let words = text::words(line, CharClass::White);
    pam::has_word(&words, "simultaneous")
}

pub fn slot_status(slot: Option<&str>) -> (r: KdeLockStatus)
    ensures
        r == slot_state(text::optional_str(slot)),
{
    let contents = match slot {
        Some(contents) => contents,
        None => return KdeLockStatus::NoService,
    };
    let contents_chars = text::chars(contents);
    let lines = text::lines(contents_chars.as_slice());
    let ghost all = text::lines_of(contents@);
    let mut wired = false;
    for i in 0..lines.len()
        invariant
            text::views(lines@) == all,
            all == text::lines_of(contents@),
            slot matches Some(given) && given@ == contents@,
            forall|j: int|
                0 <= j < i ==> !(slot_line(#[trigger] all[j]) && simultaneous(all[j])),
            wired == exists|j: int|
                0 <= j < i && slot_line(#[trigger] all[j]) && pam::has_reference(all[j]),
    {
        proof {
            assert(all[i as int] == lines@[i as int]@);
        }
        if is_slot_line(lines[i]) {
            if is_simultaneous(lines[i]) {
                return KdeLockStatus::Grosshack;
            }
            if pam::line_has_reference(lines[i]) {
                wired = true;
            }
        }
    }
    if wired {
        KdeLockStatus::Wired
    } else {
        KdeLockStatus::NotWired
    }
}

/// Of two slots, the one with the most to say: a wired one, then a deadlocking one, then one that
/// is not wired; the first of two that say the same.
pub open spec fn telling_slot(fingerprint: KdeLockStatus, smartcard: KdeLockStatus) -> (
    KdeLockStatus,
    Seq<char>,
) {
    let face = KDE_FACE_PAM_FILE@;
    let card = KDE_SMARTCARD_PAM_FILE@;
    if fingerprint == KdeLockStatus::Wired {
        (KdeLockStatus::Wired, face)
    } else if smartcard == KdeLockStatus::Wired {
        (KdeLockStatus::Wired, card)
    } else if fingerprint == KdeLockStatus::Grosshack {
        (KdeLockStatus::Grosshack, face)
    } else if smartcard == KdeLockStatus::Grosshack {
        (KdeLockStatus::Grosshack, card)
    } else if fingerprint == KdeLockStatus::NotWired {
        (KdeLockStatus::NotWired, face)
    } else if smartcard == KdeLockStatus::NotWired {
        (KdeLockStatus::NotWired, card)
    } else {
        (KdeLockStatus::NoService, face)
    }
}

/// Either slot the greeter starts up front will do: one being wired is a pass however the other
/// looks.
pub fn kde_lock_status(kde_fingerprint: Option<&str>, kde_smartcard: Option<&str>) -> (r: (
    KdeLockStatus,
    &'static str,
))
    ensures
        (r.0, r.1@) == telling_slot(
            slot_state(text::optional_str(kde_fingerprint)),
            slot_state(text::optional_str(kde_smartcard)),
        ),
{
    let fingerprint = slot_status(kde_fingerprint);
    let smartcard = slot_status(kde_smartcard);
    if fingerprint == KdeLockStatus::Wired {
        (KdeLockStatus::Wired, KDE_FACE_PAM_FILE)
    } else if smartcard == KdeLockStatus::Wired {
        (KdeLockStatus::Wired, KDE_SMARTCARD_PAM_FILE)
    } else if fingerprint == KdeLockStatus::Grosshack {
        (KdeLockStatus::Grosshack, KDE_FACE_PAM_FILE)
    } else if smartcard == KdeLockStatus::Grosshack {
        (KdeLockStatus::Grosshack, KDE_SMARTCARD_PAM_FILE)
    } else if fingerprint == KdeLockStatus::NotWired {
        (KdeLockStatus::NotWired, KDE_FACE_PAM_FILE)
    } else if smartcard == KdeLockStatus::NotWired {
        (KdeLockStatus::NotWired, KDE_SMARTCARD_PAM_FILE)
    } else {
        (KdeLockStatus::NoService, KDE_FACE_PAM_FILE)
    }
}

/// A line of hyprlock's configuration that selects a Gaze PAM service.
pub open spec fn selects_gaze(line: Seq<char>) -> bool {
    match text::split_first(pam::uncommented(line), CharClass::Is('=')) {
        None => false,
        Some((key, value)) => {
            let key = text::trimmed(key, CharClass::White);
            (key == "module"@ || key == "pam_module"@) && text::starts(
                text::trimmed(value, CharClass::White),
                "hyprlock-gaze"@,
            )
        },
    }
}

fn line_selects_gaze(line: &[char]) -> (r: bool)
    ensures
        r == selects_gaze(line@),
{
    match text::split_once(text::cut_before(line, CharClass::Is('#')), CharClass::Is('=')) {
        None => false,
        Some((key, value)) => {
            let key = text::trim(key, CharClass::White);
            (text::is_text(key, "module") || text::is_text(key, "pam_module"))
                && text::starts_with_str(text::trim(value, CharClass::White), "hyprlock-gaze")
        },
    }
}

pub fn hyprlock_selects_gaze(contents: &str) -> (r: bool)
    ensures
        r == exists|i: int|
            0 <= i < text::lines_of(contents@).len() && selects_gaze(
                #[trigger] text::lines_of(contents@)[i],
            ),
{
    let contents_chars = text::chars(contents);
    let lines = text::lines(contents_chars.as_slice());
    for i in 0..lines.len()
        invariant
            text::views(lines@) == text::lines_of(contents@),
            forall|j: int| 0 <= j < i ==> !selects_gaze(#[trigger] text::lines_of(contents@)[j]),
    {
        proof {
            assert(text::views(lines@)[i as int] == lines@[i as int]@);
        }
        if line_selects_gaze(lines[i]) {
            return true;
        }
    }
    false
}

/// Entries are read from each part of a file alone, and those of one kind are found in each part
/// alone; a line has at most one.
pub proof fn entries_are_read_line_by_line(
    upper: Seq<Seq<char>>,
    lower: Seq<Seq<char>>,
    line: Seq<char>,
)
    ensures
        entries_of(upper + lower) == entries_of(upper) + entries_of(lower),
        entries_of(seq![line]) == (match entry_of(line) {
            Some(entry) => seq![entry],
            None => seq![],
        }),
    decreases lower.len(),
{
    let alone = seq![line];
    assert(alone.drop_last() =~= seq![]);
    assert(entries_of(alone.drop_last()) =~= seq![]);
    let all = upper + lower;
    if lower.len() == 0 {
        assert(all =~= upper);
        assert(entries_of(upper) + entries_of(lower) =~= entries_of(upper));
    } else {
        entries_are_read_line_by_line(upper, lower.drop_last(), line);
        assert(all.drop_last() =~= upper + lower.drop_last());
        assert(all.last() == lower.last());
        assert(entries_of(all) =~= entries_of(upper) + entries_of(lower));
    }
}

/// The entries of one kind are found in each part of a stack alone, and keep their order.
pub proof fn entries_of_a_kind_are_found_by_parts(
    upper: Seq<Entry>,
    lower: Seq<Entry>,
    entry: Entry,
    kind: Seq<char>,
)
    ensures
        of_kind(upper + lower, kind) == of_kind(upper, kind) + of_kind(lower, kind),
        entry.kind == kind ==> of_kind(seq![entry], kind) == seq![entry],
        entry.kind != kind ==> of_kind(seq![entry], kind) == Seq::<Entry>::empty(),
    decreases lower.len(),
{
    let alone = seq![entry];
    assert(alone.drop_last() =~= seq![]);
    assert(of_kind(alone.drop_last(), kind) =~= seq![]);
    assert(seq![].push(entry) =~= alone);
    let all = upper + lower;
    if lower.len() == 0 {
        assert(all =~= upper);
        assert(of_kind(upper, kind) + of_kind(lower, kind) =~= of_kind(upper, kind));
    } else {
        entries_of_a_kind_are_found_by_parts(upper, lower.drop_last(), entry, kind);
        assert(all.drop_last() =~= upper + lower.drop_last());
        assert(all.last() == lower.last());
        assert(of_kind(all, kind) =~= of_kind(upper, kind) + of_kind(lower, kind));
    }
}

/// A control field is one word, or everything up to the closing bracket where it opens with one, blanks
/// included.
pub proof fn brackets_hold_a_control_together(inner: Seq<char>, word: Seq<char>, rest: Seq<char>)
    requires
        text::free_of(inner, CharClass::Is(']')),
        word.len() > 0,
        word[0] != '[',
        text::free_of(word, CharClass::White),
    ensures
        control_split((seq!['['] + inner).push(']') + rest) == Some(
            ((seq!['['] + inner).push(']'), rest),
        ),
        control_split(word.push(' ') + rest) == Some((word, rest)),
        control_split(seq!['['] + inner) is None,
{
    let opened = seq!['['] + inner;
    assert forall|i: int| 0 <= i < opened.len() implies !text::in_class(
        #[trigger] opened[i],
        CharClass::Is(']'),
    ) by {
        if i > 0 {
            assert(opened[i] == inner[i - 1]);
        }
    }
    let all = opened.push(']') + rest;
    let n = opened.len() as int;
    assert forall|j: int| 0 <= j < n implies !text::in_class(all[j], CharClass::Is(']')) by {
        assert(all[j] == opened[j]);
    }
    assert(all[n] == ']');
    text::lemma_first_in(all, CharClass::Is(']'), n);
    text::lemma_first_in(opened, CharClass::Is(']'), n);
    assert(all[0] == '[');
    assert(all.take(n + 1) =~= opened.push(']'));
    assert(all.skip(n + 1) =~= rest);
    text::text_is_cut_at_the_first_of_a_class(word, ' ', rest, CharClass::White);
    assert((word.push(' ') + rest)[0] == word[0]);
}

/// A text that can stand as one field of a line: not empty, without blanks, and no comment.
pub open spec fn is_field(s: Seq<char>) -> bool {
    &&& s.len() > 0
    &&& text::free_of(s, CharClass::White)
    &&& text::free_of(s, CharClass::Is('#'))
}

/// The fields of a line are read in their places: the kind without the dash before it, the control, the
/// module without its directory, and everything behind it as options.
pub proof fn a_line_is_read_field_by_field(
    kind: Seq<char>,
    control: Seq<char>,
    dir: Seq<char>,
    module: Seq<char>,
    options: Seq<char>,
)
    requires
        is_field(kind),
        kind[0] != '-',
        kind != "@include"@,
        is_field(control),
        control[0] != '[',
        is_field(module),
        text::free_of(module, CharClass::Is('/')),
        is_field(options),
        text::free_of(dir, CharClass::White),
        text::free_of(dir, CharClass::Is('#')),
    ensures
        entry_of(
            kind.push(' ') + (control.push(' ') + ((dir.push('/') + module).push(' ') + options)),
        ) == Some(Entry { kind, control, module, options }),
        entry_of(
            (seq!['-'] + kind).push(' ') + (control.push(' ') + ((dir.push('/') + module).push(' ')
                + options)),
        ) == Some(Entry { kind, control, module, options }),
        entry_of(kind) is None,
{
    reveal_strlit("@include");
    let path = dir.push('/') + module;
    assert forall|i: int| 0 <= i < path.len() implies !text::in_class(
        #[trigger] path[i],
        CharClass::White,
    ) && !text::in_class(path[i], CharClass::Is('#')) by {
        if i < dir.len() {
            assert(path[i] == dir[i]);
        } else if i > dir.len() {
            assert(path[i] == module[i - dir.len() - 1]);
        }
    }
    lemma_fields(kind, control, path, options);
    text::the_last_piece_follows_the_last_separator(dir, '/', module);
    let nothing = Seq::<char>::empty();
    let dashed = seq!['-'] + kind;
    assert forall|i: int| 0 <= i < dashed.len() implies !text::in_class(
        #[trigger] dashed[i],
        CharClass::White,
    ) && !text::in_class(dashed[i], CharClass::Is('#')) by {
        if i > 0 {
            assert(dashed[i] == kind[i - 1]);
        }
    }
    assert(dashed != "@include"@) by {
        assert(dashed[0] == '-');
    }
    lemma_fields(dashed, control, path, options);
    assert(dashed[0] == '-');
    assert(dashed.skip(1) =~= kind);
    reveal_with_fuel(text::trimmed_front, 3);
    lemma_bare_field(kind);
    text::text_is_cut_at_the_first_of_a_class(kind, ' ', nothing, CharClass::White);
}

proof fn lemma_bare_field(s: Seq<char>)
    requires
        is_field(s),
    ensures
        pam::bare(s) == s,
{
    let nothing = Seq::<char>::empty();
    text::text_is_cut_at_the_first_of_a_class(s, '#', nothing, CharClass::Is('#'));
    assert(nothing + s + nothing =~= s);
    assert(s.last() == s[s.len() - 1]);
    text::trimming_takes_off_both_ends_alone(nothing, s, nothing, CharClass::White);
}

proof fn lemma_fields(kind: Seq<char>, control: Seq<char>, path: Seq<char>, options: Seq<char>)
    requires
        is_field(kind),
        kind != "@include"@,
        is_field(control),
        control[0] != '[',
        is_field(path),
        is_field(options),
    ensures
        entry_of(kind.push(' ') + (control.push(' ') + (path.push(' ') + options))) == Some(
            Entry {
                kind: text::trimmed_front(kind, CharClass::Is('-')),
                control,
                module: text::after_last(path, '/'),
                options,
            },
        ),
{
    let tail = path.push(' ') + options;
    let rest = control.push(' ') + tail;
    let line = kind.push(' ') + rest;
    let nothing = Seq::<char>::empty();
    assert forall|i: int| 0 <= i < line.len() implies !text::in_class(
        #[trigger] line[i],
        CharClass::Is('#'),
    ) by {
        if i < kind.len() {
            assert(line[i] == kind[i]);
        } else if i > kind.len() {
            let j = i - kind.len() - 1;
            assert(line[i] == rest[j]);
            if j < control.len() {
                assert(rest[j] == control[j]);
            } else if j > control.len() {
                let k = j - control.len() - 1;
                assert(rest[j] == tail[k]);
                if k < path.len() {
                    assert(tail[k] == path[k]);
                } else if k > path.len() {
                    assert(tail[k] == options[k - path.len() - 1]);
                }
            }
        }
    }
    text::text_is_cut_at_the_first_of_a_class(line, '#', nothing, CharClass::Is('#'));
    assert(line[0] == kind[0]);
    assert(line.last() == options[options.len() - 1]);
    assert(nothing + line + nothing =~= line);
    text::trimming_takes_off_both_ends_alone(nothing, line, nothing, CharClass::White);
    assert(pam::bare(line) == line);
    text::text_is_cut_at_the_first_of_a_class(kind, ' ', rest, CharClass::White);
    assert(rest[0] == control[0]);
    assert(text::trimmed_front(rest, CharClass::White) == rest);
    text::text_is_cut_at_the_first_of_a_class(control, ' ', tail, CharClass::White);
    assert(tail[0] == path[0]);
    assert(text::trimmed_front(tail, CharClass::White) == tail);
    text::text_is_cut_at_the_first_of_a_class(path, ' ', options, CharClass::White);
}

/// A file that is pulled in whole takes part in authentication.
pub proof fn an_included_file_counts_as_authentication(file: Seq<char>)
    requires
        is_field(file),
    ensures
        entry_of("@include"@.push(' ') + file) matches Some(entry) && entry.kind == "auth"@
            && entry.control == "include"@ && entry.module == file,
{
    reveal_strlit("@include");
    let line = "@include"@.push(' ') + file;
    let nothing = Seq::<char>::empty();
    assert forall|i: int| 0 <= i < line.len() implies !text::in_class(
        #[trigger] line[i],
        CharClass::Is('#'),
    ) by {
        if i > 8 {
            assert(line[i] == file[i - 9]);
        }
    }
    text::text_is_cut_at_the_first_of_a_class(line, '#', nothing, CharClass::Is('#'));
    assert(line[0] == '@');
    assert(line.last() == file[file.len() - 1]);
    assert(nothing + line + nothing =~= line);
    text::trimming_takes_off_both_ends_alone(nothing, line, nothing, CharClass::White);
    assert forall|i: int| 0 <= i < "@include"@.len() implies !text::in_class(
        #[trigger] "@include"@[i],
        CharClass::White,
    ) by {}
    text::text_is_cut_at_the_first_of_a_class("@include"@, ' ', file, CharClass::White);
    assert(text::trimmed_front(file, CharClass::White) == file);
}

/// A stack hands the password to GNOME Keyring exactly when three of its `auth` lines in a row do so
/// and one of its session lines starts the keyring. Of the three, the first is Gaze, alone and skipping
/// one line on a match; the second turns everyone else away; the third takes the password and neither
/// starts a keyring nor serves some services only.
pub proof fn gnome_keyring_gets_the_password_after_gaze_alone(
    before: Seq<Entry>,
    gaze: Entry,
    deny: Entry,
    keyring: Entry,
    after: Seq<Entry>,
    session: Entry,
)
    ensures
        gnome_handoff(gaze, deny, keyring) ==> {
            &&& gaze.module == "pam_gaze.so"@ && deny.module == "pam_deny.so"@ && keyring.module
                == "pam_gnome_keyring.so"@
            &&& deny.control == "requisite"@ && keyring.control == "optional"@
            &&& field_words(gaze.control) == seq!["[success=1"@, "default=ignore]"@]
            &&& forall|i: int|
                0 <= i < field_words(gaze.options).len() ==> #[trigger] field_words(gaze.options)[i]
                    != "simultaneous"@
            &&& field_words(keyring.options).contains("use_authtok"@)
            &&& forall|i: int|
                0 <= i < field_words(keyring.options).len() ==> {
                    let word = #[trigger] field_words(keyring.options)[i];
                    word != "auto_start"@ && !text::starts(word, "only_if="@)
                }
        },
        gaze.module == "pam_gaze.so"@ && deny.module == "pam_deny.so"@ && keyring.module
            == "pam_gnome_keyring.so"@ && deny.control == "requisite"@ && keyring.control
            == "optional"@ && field_words(gaze.control) == seq!["[success=1"@, "default=ignore]"@]
            && field_words(gaze.options).len() == 0 && field_words(keyring.options) == seq![
            "use_authtok"@,
        ] ==> gnome_handoff(gaze, deny, keyring),
        gnome_session(session) ==> session.kind == "session"@ && session.module
            == "pam_gnome_keyring.so"@ && (session.control == "optional"@ || session.control
            == "required"@) && field_words(session.options).contains("auto_start"@),
        session.kind == "session"@ && session.module == "pam_gnome_keyring.so"@ && (session.control
            == "optional"@ || session.control == "required"@) && field_words(session.options)
            == seq!["auto_start"@] ==> gnome_session(session),
        gaze.kind == "auth"@ && deny.kind == "auth"@ && keyring.kind == "auth"@ && gnome_handoff(
            gaze,
            deny,
            keyring,
        ) && after.contains(session) && gnome_session(session) ==> gnome_stack(
            before + seq![gaze, deny, keyring] + after,
        ),
        gnome_stack(before) ==> exists|i: int|
            0 <= i < before.len() && gnome_session(#[trigger] before[i]),
        gnome_stack(before) ==> of_kind(before, "auth"@).len() >= 3,
{
    reveal_strlit("auto_start");
    reveal_strlit("use_authtok");
    reveal_strlit("only_if=");
    assert("auto_start"@.len() != "use_authtok"@.len());
    assert("use_authtok"@[0] == 'u');
    assert("auto_start"@[0] == 'a');
    if field_words(keyring.options) == seq!["use_authtok"@] {
        assert(field_words(keyring.options)[0] == "use_authtok"@);
        assert(!text::starts("use_authtok"@, "only_if="@)) by {
            assert("use_authtok"@.take(8)[0] == 'u');
            assert("only_if="@[0] == 'o');
        }
    }
    if field_words(session.options) == seq!["auto_start"@] {
        assert(field_words(session.options)[0] == "auto_start"@);
        assert(!text::starts("auto_start"@, "only_if="@)) by {
            assert("auto_start"@.take(8)[0] == 'a');
            assert("only_if="@[0] == 'o');
        }
    }
    if gaze.kind == "auth"@ && deny.kind == "auth"@ && keyring.kind == "auth"@ && gnome_handoff(
        gaze,
        deny,
        keyring,
    ) && after.contains(session) && gnome_session(session) {
        let three = seq![gaze, deny, keyring];
        let all = before + three + after;
        lemma_three(before, gaze, deny, keyring, after);
        let auth = of_kind(all, "auth"@);
        let n = of_kind(before, "auth"@).len() as int;
        assert(auth[n] == gaze && auth[n + 1] == deny && auth[n + 2] == keyring);
        assert(gnome_handoff(auth[n], auth[n + 1], auth[n + 2]));
        let k = choose|k: int| 0 <= k < after.len() && after[k] == session;
        assert(all[before.len() + 3 + k] == session);
    }
}

proof fn lemma_three(before: Seq<Entry>, a: Entry, b: Entry, c: Entry, after: Seq<Entry>)
    requires
        a.kind == "auth"@,
        b.kind == "auth"@,
        c.kind == "auth"@,
    ensures
        of_kind(before + seq![a, b, c] + after, "auth"@) == of_kind(before, "auth"@) + seq![a, b, c]
            + of_kind(after, "auth"@),
{
    entries_of_a_kind_are_found_by_parts(before + seq![a, b, c], after, a, "auth"@);
    entries_of_a_kind_are_found_by_parts(before, seq![a, b, c], b, "auth"@);
    entries_of_a_kind_are_found_by_parts(seq![a, b], seq![c], c, "auth"@);
    entries_of_a_kind_are_found_by_parts(seq![a], seq![b], a, "auth"@);
    assert(seq![a, b] + seq![c] =~= seq![a, b, c]);
    assert(seq![a] + seq![b] =~= seq![a, b]);
}

/// A stack hands the password to KWallet exactly when four of its `auth` lines in a row form the managed
/// branch and one of its session lines starts the wallet: Gaze alone for a login, a skip over the
/// wallet for everyone who did not match, the wallet, and the end.
pub proof fn kwallet_gets_the_password_after_gaze_alone(
    gaze: Entry,
    skip: Entry,
    wallet: Entry,
    done: Entry,
    session: Entry,
    entries: Seq<Entry>,
)
    ensures
        kde_handoff(gaze, skip, wallet, done) <==> {
            &&& gaze.module == "pam_gaze.so"@ && skip.module == "pam_permit.so"@ && wallet.module
                == "pam_kwallet5.so"@ && done.module == "pam_permit.so"@
            &&& field_words(gaze.options) == seq!["kde-login"@]
            &&& field_words(gaze.control).len() == 2 && field_words(gaze.control)[0]
                == "[success=1"@ && (field_words(gaze.control)[1] == "default=ignore]"@
                || field_words(gaze.control)[1] == "default=die]"@)
            &&& field_words(skip.control) == seq!["[success=2"@, "default=ignore]"@]
            &&& wallet.control == "optional"@ && wallet.options.len() == 0
            &&& field_words(done.control) == seq!["[success=done"@, "default=ignore]"@]
        },
        kde_session(session) <==> session.kind == "session"@ && session.control == "optional"@
            && session.module == "pam_kwallet5.so"@ && field_words(session.options) == seq![
            "auto_start"@,
        ],
        kde_stack(entries) ==> of_kind(entries, "auth"@).len() >= 4 && exists|i: int|
            0 <= i < entries.len() && kde_session(#[trigger] entries[i]),
        forall|i: int|
            0 <= i && i + 3 < of_kind(entries, "auth"@).len() && kde_handoff(
                #[trigger] of_kind(entries, "auth"@)[i],
                of_kind(entries, "auth"@)[i + 1],
                of_kind(entries, "auth"@)[i + 2],
                of_kind(entries, "auth"@)[i + 3],
            ) && entries.contains(session) && kde_session(session) ==> kde_stack(entries),
{
    let words = field_words(gaze.control);
    if words.len() == 2 {
        assert(words =~= seq![words[0], words[1]]);
    }
    if entries.contains(session) && kde_session(session) {
        let k = choose|k: int| 0 <= k < entries.len() && entries[k] == session;
        assert(kde_session(entries[k]));
    }
}

/// A slot deadlocks as soon as one of its lines runs the simultaneous module. It is wired where none
/// does and one loads Gaze, and not wired otherwise; only `auth` lines count, and a slot without a file
/// is none.
pub proof fn one_simultaneous_line_spoils_a_slot(contents: Seq<char>, i: int)
    requires
        0 <= i < text::lines_of(contents).len(),
    ensures
        slot_line(text::lines_of(contents)[i]) && simultaneous(text::lines_of(contents)[i])
            ==> status_of(contents) == KdeLockStatus::Grosshack,
        slot_line(text::lines_of(contents)[i]) && pam::has_reference(text::lines_of(contents)[i])
            ==> status_of(contents) == KdeLockStatus::Grosshack || status_of(contents)
            == KdeLockStatus::Wired,
        (forall|k: int|
            0 <= k < text::lines_of(contents).len() ==> !(slot_line(
                #[trigger] text::lines_of(contents)[k],
            ) && simultaneous(text::lines_of(contents)[k]))) ==> status_of(contents)
            != KdeLockStatus::Grosshack,
        (forall|k: int|
            0 <= k < text::lines_of(contents).len() ==> !(slot_line(
                #[trigger] text::lines_of(contents)[k],
            ) && (simultaneous(text::lines_of(contents)[k]) || pam::has_reference(
                text::lines_of(contents)[k],
            )))) ==> status_of(contents) == KdeLockStatus::NotWired,
        slot_state(Some(contents)) == status_of(contents),
        slot_state(None) == KdeLockStatus::NoService,
{
}

/// A line belongs to a slot by its first word, and runs two things at once where it names the module for
/// that or loads Gaze with the option for it.
pub proof fn a_slot_line_begins_with_its_kind(line: Seq<char>)
    ensures
        ({
            let words = text::words_of(text::before(line, CharClass::Is('#')), CharClass::White);
            slot_line(line) <==> words.len() > 0 && (words[0] == "auth"@ || words[0] == "-auth"@)
        }),
        simultaneous(line) <==> text::mentions(line, "pam_gaze_grosshack.so"@) || (
        pam::has_reference(line) && exists|i: int|
            0 <= i < text::words_of(line, CharClass::White).len() && #[trigger] text::words_of(
                line,
                CharClass::White,
            )[i] == "simultaneous"@),
{
    let words = text::words_of(line, CharClass::White);
    assert(words.contains("simultaneous"@) <==> exists|i: int|
        0 <= i < words.len() && #[trigger] words[i] == "simultaneous"@);
}

/// How much a slot has to say.
pub open spec fn telling(status: KdeLockStatus) -> int {
    match status {
        KdeLockStatus::Wired => 3,
        KdeLockStatus::Grosshack => 2,
        KdeLockStatus::NotWired => 1,
        KdeLockStatus::NoService => 0,
    }
}

/// Of the two slots the one with the most to say is shown, with its own file, and the fingerprint slot
/// where they say the same. Either being wired is enough.
pub proof fn the_slot_with_the_most_to_say_is_shown(
    fingerprint: KdeLockStatus,
    smartcard: KdeLockStatus,
)
    ensures
        telling(fingerprint) >= telling(smartcard) ==> telling_slot(fingerprint, smartcard) == (
            fingerprint,
            "/etc/pam.d/kde-fingerprint"@,
        ),
        telling(fingerprint) < telling(smartcard) ==> telling_slot(fingerprint, smartcard) == (
            smartcard,
            "/etc/pam.d/kde-smartcard"@,
        ),
        telling_slot(fingerprint, smartcard).0 == KdeLockStatus::Wired <==> fingerprint
            == KdeLockStatus::Wired || smartcard == KdeLockStatus::Wired,
{
}

/// A line selects a Gaze service exactly when its key is one of the two for a module and its value
/// begins with the service's name, with any blanks around either.
pub proof fn a_service_is_selected_by_key_and_value(
    key: Seq<char>,
    value: Seq<char>,
    line: Seq<char>,
)
    requires
        text::free_of(key, CharClass::Is('=')),
        text::free_of(key.push('=') + value, CharClass::Is('#')),
    ensures
        selects_gaze(key.push('=') + value) <==> (text::trimmed(key, CharClass::White) == "module"@
            || text::trimmed(key, CharClass::White) == "pam_module"@) && text::starts(
            text::trimmed(value, CharClass::White),
            "hyprlock-gaze"@,
        ),
        text::free_of(line, CharClass::Is('=')) && text::free_of(line, CharClass::Is('#'))
            ==> !selects_gaze(line),
{
    let full = key.push('=') + value;
    let nothing = Seq::<char>::empty();
    text::text_is_cut_at_the_first_of_a_class(full, '#', nothing, CharClass::Is('#'));
    text::text_is_cut_at_the_first_of_a_class(key, '=', value, CharClass::Is('='));
    if text::free_of(line, CharClass::Is('=')) && text::free_of(line, CharClass::Is('#')) {
        text::text_is_cut_at_the_first_of_a_class(line, '#', nothing, CharClass::Is('#'));
        text::text_is_cut_at_the_first_of_a_class(line, '=', nothing, CharClass::Is('='));
    }
}

} // verus!
