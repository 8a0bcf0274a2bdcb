//! Text as a sequence of characters.
//!
//! Every function here reads or builds text one character at a time. The spec functions say what
//! a piece of text is (`trimmed`, `lines_of`, `words_of`, ...); the executable functions work on
//! character slices and are proved equal to them.

use vstd::prelude::*;
use vstd::slice::slice_subrange;

verus! {

/// A set of characters that text is trimmed by, split at or searched for.
#[derive(Clone, Copy)]
pub enum CharClass {
    /// The characters with Unicode's White_Space property.
    White,
    /// Space, tab, line feed, form feed and carriage return.
    AsciiWhite,
    /// Single and double quotation marks.
    Quote,
    /// Opening and closing square brackets.
    Bracket,
    /// Everything but the ten ASCII digits.
    NonDigit,
    /// One character.
    Is(char),
}

/// Unicode's White_Space property.
pub open spec fn white(c: char) -> bool {
    ||| '\u{9}' <= c <= '\u{d}'
    ||| c == ' '
    ||| c == '\u{85}'
    ||| c == '\u{a0}'
    ||| c == '\u{1680}'
    ||| '\u{2000}' <= c <= '\u{200a}'
    ||| c == '\u{2028}'
    ||| c == '\u{2029}'
    ||| c == '\u{202f}'
    ||| c == '\u{205f}'
    ||| c == '\u{3000}'
}

pub open spec fn digit(c: char) -> bool {
    '0' <= c <= '9'
}

pub open spec fn in_class(c: char, class: CharClass) -> bool {
    match class {
        CharClass::White => white(c),
        CharClass::AsciiWhite => c == ' ' || c == '\t' || c == '\n' || c == '\u{c}' || c == '\r',
        CharClass::Quote => c == '\'' || c == '"',
        CharClass::Bracket => c == '[' || c == ']',
        CharClass::NonDigit => !digit(c),
        CharClass::Is(d) => c == d,
    }
}

impl CharClass {
    pub fn holds(self, c: char) -> (r: bool)
        ensures
            r == in_class(c, self),
    {
        match self {
            CharClass::White => {
                ('\u{9}' <= c && c <= '\u{d}') || c == ' ' || c == '\u{85}' || c == '\u{a0}' || c
                    == '\u{1680}' || ('\u{2000}' <= c && c <= '\u{200a}') || c == '\u{2028}' || c
                    == '\u{2029}' || c == '\u{202f}' || c == '\u{205f}' || c == '\u{3000}'
            },
            CharClass::AsciiWhite => c == ' ' || c == '\t' || c == '\n' || c == '\u{c}' || c
                == '\r',
            CharClass::Quote => c == '\'' || c == '"',
            CharClass::Bracket => c == '[' || c == ']',
            CharClass::NonDigit => !('0' <= c && c <= '9'),
            CharClass::Is(d) => c == d,
        }
    }
}

/// How many characters stand before the first one of the class (all of them if there is none).
pub open spec fn first_in(s: Seq<char>, class: CharClass) -> int
    decreases s.len(),
{
    if s.len() == 0 || in_class(s[0], class) {
        0
    } else {
        1 + first_in(s.skip(1), class)
    }
}

/// The text without the characters of the class at its front.
pub open spec fn trimmed_front(s: Seq<char>, class: CharClass) -> Seq<char>
    decreases s.len(),
{
    if s.len() > 0 && in_class(s[0], class) {
        trimmed_front(s.skip(1), class)
    } else {
        s
    }
}

/// The text without the characters of the class at its end.
pub open spec fn trimmed_back(s: Seq<char>, class: CharClass) -> Seq<char>
    decreases s.len(),
{
    if s.len() > 0 && in_class(s.last(), class) {
        trimmed_back(s.drop_last(), class)
    } else {
        s
    }
}

pub open spec fn trimmed(s: Seq<char>, class: CharClass) -> Seq<char> {
    trimmed_back(trimmed_front(s, class), class)
}

/// What stands before the first character of the class.
pub open spec fn before(s: Seq<char>, class: CharClass) -> Seq<char> {
    s.take(first_in(s, class))
}

/// The two sides of the first character of the class.
pub open spec fn split_first(s: Seq<char>, class: CharClass) -> Option<(Seq<char>, Seq<char>)> {
    let i = first_in(s, class);
    if i < s.len() {
        Some((s.take(i), s.skip(i + 1)))
    } else {
        None
    }
}

/// The pieces between the characters of the class, empty ones too.
pub open spec fn pieces(s: Seq<char>, class: CharClass) -> Seq<Seq<char>>
    decreases s.len(),
{
    let i = first_in(s, class);
    if 0 <= i < s.len() {
        seq![s.take(i)] + pieces(s.skip(i + 1), class)
    } else {
        seq![s]
    }
}

/// What stands after the last occurrence of the character.
pub open spec fn after_last(s: Seq<char>, c: char) -> Seq<char>
    decreases s.len(),
{
    let i = first_in(s, CharClass::Is(c));
    if 0 <= i < s.len() {
        after_last(s.skip(i + 1), c)
    } else {
        s
    }
}

/// The longest runs of characters outside the class.
pub open spec fn words_of(s: Seq<char>, class: CharClass) -> Seq<Seq<char>>
    decreases s.len(),
{
    if s.len() == 0 {
        seq![]
    } else if in_class(s[0], class) {
        words_of(s.skip(1), class)
    } else {
        let i = first_in(s, class);
        if 0 < i <= s.len() {
            seq![s.take(i)] + words_of(s.skip(i), class)
        } else {
            seq![]
        }
    }
}

/// A line that ended in a line feed, without the carriage return before it.
pub open spec fn without_return(s: Seq<char>) -> Seq<char> {
    if s.len() > 0 && s.last() == '\r' {
        s.drop_last()
    } else {
        s
    }
}

/// The lines of a text. Each ends at a line feed, which may have a carriage return before it; the
/// last line needs no ending.
pub open spec fn lines_of(s: Seq<char>) -> Seq<Seq<char>>
    decreases s.len(),
{
    if s.len() == 0 {
        seq![]
    } else {
        let i = first_in(s, CharClass::Is('\n'));
        if 0 <= i < s.len() {
            seq![without_return(s.take(i))] + lines_of(s.skip(i + 1))
        } else {
            seq![s]
        }
    }
}

pub open spec fn occurs_at(s: Seq<char>, needle: Seq<char>, i: int) -> bool {
    0 <= i && i + needle.len() <= s.len() && s.subrange(i, i + needle.len()) == needle
}

/// The needle stands somewhere in the text.
pub open spec fn mentions(s: Seq<char>, needle: Seq<char>) -> bool {
    exists|i: int| occurs_at(s, needle, i)
}

pub open spec fn starts(s: Seq<char>, prefix: Seq<char>) -> bool {
    prefix.len() <= s.len() && s.take(prefix.len() as int) == prefix
}

pub open spec fn ends(s: Seq<char>, suffix: Seq<char>) -> bool {
    suffix.len() <= s.len() && s.skip(s.len() - suffix.len()) == suffix
}

pub open spec fn without_prefix(s: Seq<char>, prefix: Seq<char>) -> Option<Seq<char>> {
    if starts(s, prefix) {
        Some(s.skip(prefix.len() as int))
    } else {
        None
    }
}

pub open spec fn lower_char(c: char) -> char {
    if 'A' <= c <= 'Z' {
        ((c as u32) + 32) as char
    } else {
        c
    }
}

pub open spec fn upper_char(c: char) -> char {
    if 'a' <= c <= 'z' {
        ((c as u32) - 32) as char
    } else {
        c
    }
}

/// The text with A to Z in lower case.
pub open spec fn lowered(s: Seq<char>) -> Seq<char> {
    Seq::new(s.len(), |i: int| lower_char(s[i]))
}

/// The text with a to z in upper case.
pub open spec fn uppered(s: Seq<char>) -> Seq<char> {
    Seq::new(s.len(), |i: int| upper_char(s[i]))
}

pub open spec fn replaced(s: Seq<char>, from: char, to: char) -> Seq<char> {
    Seq::new(s.len(), |i: int| if s[i] == from { to } else { s[i] })
}

pub open spec fn all_digits(s: Seq<char>) -> bool {
    forall|i: int| 0 <= i < s.len() ==> digit(#[trigger] s[i])
}

/// The texts one after another, with the separator between each two.
pub open spec fn joined(parts: Seq<Seq<char>>, sep: Seq<char>) -> Seq<char>
    decreases parts.len(),
{
    if parts.len() == 0 {
        seq![]
    } else if parts.len() == 1 {
        parts[0]
    } else {
        joined(parts.drop_last(), sep) + sep + parts.last()
    }
}

/// The contents of a list of character slices.
pub open spec fn views(parts: Seq<&[char]>) -> Seq<Seq<char>> {
    Seq::new(parts.len(), |i: int| parts[i]@)
}

/// The contents of a list of strings.
pub open spec fn texts(parts: Seq<String>) -> Seq<Seq<char>> {
    Seq::new(parts.len(), |i: int| parts[i]@)
}

pub open spec fn optional(s: Option<String>) -> Option<Seq<char>> {
    match s {
        Some(t) => Some(t@),
        None => None,
    }
}

pub open spec fn optional_str(s: Option<&str>) -> Option<Seq<char>> {
    match s {
        Some(t) => Some(t@),
        None => None,
    }
}

pub proof fn lemma_first_in(s: Seq<char>, class: CharClass, n: int)
    requires
        0 <= n <= s.len(),
        forall|j: int| 0 <= j < n ==> !in_class(s[j], class),
        n == s.len() || in_class(s[n], class),
    ensures
        first_in(s, class) == n,
    decreases s.len(),
{
    if n > 0 {
        let t = s.skip(1);
        assert forall|j: int| 0 <= j < n - 1 implies !in_class(t[j], class) by {
            assert(t[j] == s[j + 1]);
        }
        if n < s.len() {
            assert(t[n - 1] == s[n]);
        }
        lemma_first_in(t, class, n - 1);
    }
}

/// The first character of the class, if there is one, is where `first_in` says, and none stands
/// before it.
pub proof fn first_in_is_first(s: Seq<char>, class: CharClass)
    ensures
        0 <= first_in(s, class) <= s.len(),
        forall|j: int| 0 <= j < first_in(s, class) ==> !in_class(#[trigger] s[j], class),
        first_in(s, class) < s.len() ==> in_class(s[first_in(s, class)], class),
    decreases s.len(),
{
    if s.len() > 0 && !in_class(s[0], class) {
        let t = s.skip(1);
        first_in_is_first(t, class);
        assert forall|j: int| 0 <= j < first_in(s, class) implies !in_class(
            #[trigger] s[j],
            class,
        ) by {
            if j > 0 {
                assert(t[j - 1] == s[j]);
            }
        }
    }
}

/// Appends one character, as `String::push` documents.
#[verifier::external_body]
fn push_char(s: &mut String, c: char)
    ensures
        final(s)@ == old(s)@.push(c),
{
    s.push(c);
}

/// A text in double quotes with its special characters escaped, as `Debug` shows a `str`.
pub uninterp spec fn quoted(s: Seq<char>) -> Seq<char>;

/// `<str as Debug>::fmt`: what it writes depends on the text alone.
#[verifier::external_body]
pub(crate) fn quote(s: &str) -> (r: String)
    ensures
        r@ == quoted(s@),
{
    format!("{s:?}")
}

/// The characters of a text.
pub fn chars(s: &str) -> (r: Vec<char>)
    ensures
        r@ == s@,
{
    let mut r: Vec<char> = Vec::new();
    for c in it: s.chars()
        invariant
            it.seq() == s@,
            r@ == s@.take(it.index() as int),
    {
        proof {
            assert(s@.take(it.index() as int).push(c) =~= s@.take(it.index() as int + 1));
        }
        r.push(c);
    }
    proof {
        assert(s@.take(s@.len() as int) =~= s@);
    }
    r
}

pub fn string(s: &[char]) -> (r: String)
    ensures
        r@ == s@,
{
    let mut r = String::new();
    for i in 0..s.len()
        invariant
            r@ == s@.take(i as int),
    {
        proof {
            assert(s@.take(i as int).push(s@[i as int]) =~= s@.take(i as int + 1));
        }
        push_char(&mut r, s[i]);
    }
    proof {
        assert(s@.take(s@.len() as int) =~= s@);
    }
    r
}

pub fn find(s: &[char], class: CharClass) -> (i: usize)
    ensures
        i == first_in(s@, class),
        i <= s@.len(),
{
    let mut i: usize = 0;
    while i < s.len() && !class.holds(s[i])
        invariant
            i <= s@.len(),
            forall|j: int| 0 <= j < i ==> !in_class(s@[j], class),
        decreases s@.len() - i,
    {
        i = i + 1;
    }
    proof {
        lemma_first_in(s@, class, i as int);
    }
    i
}

pub fn trim_front(s: &[char], class: CharClass) -> (r: &[char])
    ensures
        r@ == trimmed_front(s@, class),
{
    let mut i: usize = 0;
    proof {
        assert(s@.skip(0) =~= s@);
    }
    while i < s.len() && class.holds(s[i])
        invariant
            i <= s@.len(),
            trimmed_front(s@, class) == trimmed_front(s@.skip(i as int), class),
        decreases s@.len() - i,
    {
        proof {
            assert(s@.skip(i as int).skip(1) =~= s@.skip(i as int + 1));
        }
        i = i + 1;
    }
    proof {
        assert(s@.subrange(i as int, s@.len() as int) =~= s@.skip(i as int));
    }
    slice_subrange(s, i, s.len())
}

pub fn trim_back(s: &[char], class: CharClass) -> (r: &[char])
    ensures
        r@ == trimmed_back(s@, class),
{
    let mut n: usize = s.len();
    proof {
        assert(s@.take(n as int) =~= s@);
    }
    while n > 0 && class.holds(s[n - 1])
        invariant
            n <= s@.len(),
            trimmed_back(s@, class) == trimmed_back(s@.take(n as int), class),
        decreases n,
    {
        proof {
            assert(s@.take(n as int).drop_last() =~= s@.take(n as int - 1));
        }
        n = n - 1;
    }
    proof {
        assert(s@.subrange(0, n as int) =~= s@.take(n as int));
    }
    slice_subrange(s, 0, n)
}

pub fn trim(s: &[char], class: CharClass) -> (r: &[char])
    ensures
        r@ == trimmed(s@, class),
{
    trim_back(trim_front(s, class), class)
}

pub fn cut_before(s: &[char], class: CharClass) -> (r: &[char])
    ensures
        r@ == before(s@, class),
{
    let i: usize = find(s, class);
    proof {
        assert(s@.subrange(0, i as int) =~= s@.take(i as int));
    }
    slice_subrange(s, 0, i)
}

pub open spec fn pair_view(p: Option<(&[char], &[char])>) -> Option<(Seq<char>, Seq<char>)> {
    match p {
        Some((a, b)) => Some((a@, b@)),
        None => None,
    }
}

pub fn split_once(s: &[char], class: CharClass) -> (r: Option<(&[char], &[char])>)
    ensures
        pair_view(r) == split_first(s@, class),
{
    let i: usize = find(s, class);
    if i < s.len() {
        proof {
            assert(s@.subrange(0, i as int) =~= s@.take(i as int));
            assert(s@.subrange(i as int + 1, s@.len() as int) =~= s@.skip(i as int + 1));
        }
        Some((slice_subrange(s, 0, i), slice_subrange(s, i + 1, s.len())))
    } else {
        None
    }
}

proof fn lemma_views_push(parts: Seq<&[char]>, part: &[char])
    ensures
        views(parts.push(part)) == views(parts) + seq![part@],
{
    assert(views(parts.push(part)) =~= views(parts) + seq![part@]);
}

pub fn split(s: &[char], class: CharClass) -> (r: Vec<&[char]>)
    ensures
        views(r@) == pieces(s@, class),
        r@.len() >= 1,
{
    let mut r: Vec<&[char]> = Vec::new();
    let mut rest: &[char] = s;
    proof {
        assert(views(r@) + pieces(rest@, class) =~= pieces(s@, class));
    }
    loop
        invariant
            views(r@) + pieces(rest@, class) == pieces(s@, class),
        decreases rest@.len(),
    {
        let ghost done = views(r@);
        match split_once(rest, class) {
            Some((piece, tail)) => {
                proof {
                    first_in_is_first(rest@, class);
                    lemma_views_push(r@, piece);
                    assert(done + (seq![piece@] + pieces(tail@, class)) =~= (done + seq![piece@])
                        + pieces(tail@, class));
                }
                r.push(piece);
                rest = tail;
            },
            None => {
                proof {
                    first_in_is_first(rest@, class);
                    lemma_views_push(r@, rest);
                }
                r.push(rest);
                return r;
            },
        }
    }
}

pub fn last_piece(s: &[char], c: char) -> (r: &[char])
    ensures
        r@ == after_last(s@, c),
{
    let mut rest: &[char] = s;
    loop
        invariant
            after_last(rest@, c) == after_last(s@, c),
        decreases rest@.len(),
    {
        match split_once(rest, CharClass::Is(c)) {
            Some((_, tail)) => {
                proof {
                    first_in_is_first(rest@, CharClass::Is(c));
                }
                rest = tail;
            },
            None => {
                proof {
                    first_in_is_first(rest@, CharClass::Is(c));
                }
                return rest;
            },
        }
    }
}

pub fn words(s: &[char], class: CharClass) -> (r: Vec<&[char]>)
    ensures
        views(r@) == words_of(s@, class),
{
    let mut r: Vec<&[char]> = Vec::new();
    let mut rest: &[char] = s;
    proof {
        assert(views(r@) + words_of(rest@, class) =~= words_of(s@, class));
    }
    while rest.len() > 0
        invariant
            views(r@) + words_of(rest@, class) == words_of(s@, class),
        decreases rest@.len(),
    {
        let ghost done = views(r@);
        if class.holds(rest[0]) {
            proof {
                assert(rest@.subrange(1, rest@.len() as int) =~= rest@.skip(1));
            }
            rest = slice_subrange(rest, 1, rest.len());
        } else {
            let i: usize = find(rest, class);
            let word = slice_subrange(rest, 0, i);
            let tail = slice_subrange(rest, i, rest.len());
            proof {
                first_in_is_first(rest@, class);
                assert(word@ =~= rest@.take(i as int));
                assert(tail@ =~= rest@.skip(i as int));
                lemma_views_push(r@, word);
                assert(done + (seq![word@] + words_of(tail@, class)) =~= (done + seq![word@])
                    + words_of(tail@, class));
            }
            r.push(word);
            rest = tail;
        }
    }
    proof {
        assert(words_of(rest@, class) =~= seq![]);
        assert(views(r@) + words_of(rest@, class) =~= views(r@));
    }
    r
}

fn drop_return(s: &[char]) -> (r: &[char])
    ensures
        r@ == without_return(s@),
{
    if s.len() > 0 && s[s.len() - 1] == '\r' {
        proof {
            assert(s@.subrange(0, s@.len() - 1) =~= s@.drop_last());
        }
        slice_subrange(s, 0, s.len() - 1)
    } else {
        s
    }
}

pub fn lines(s: &[char]) -> (r: Vec<&[char]>)
    ensures
        views(r@) == lines_of(s@),
{
    let mut r: Vec<&[char]> = Vec::new();
    let mut rest: &[char] = s;
    proof {
        assert(views(r@) + lines_of(rest@) =~= lines_of(s@));
    }
    while rest.len() > 0
        invariant
            views(r@) + lines_of(rest@) == lines_of(s@),
        decreases rest@.len(),
    {
        let ghost done = views(r@);
        match split_once(rest, CharClass::Is('\n')) {
            Some((line, tail)) => {
                let line = drop_return(line);
                proof {
                    first_in_is_first(rest@, CharClass::Is('\n'));
                    lemma_views_push(r@, line);
                    assert(done + (seq![line@] + lines_of(tail@)) =~= (done + seq![line@])
                        + lines_of(tail@));
                }
                r.push(line);
                rest = tail;
            },
            None => {
                proof {
                    first_in_is_first(rest@, CharClass::Is('\n'));
                    lemma_views_push(r@, rest);
                }
                r.push(rest);
                return r;
            },
        }
    }
    proof {
        assert(views(r@) + lines_of(rest@) =~= views(r@));
    }
    r
}

pub fn same(a: &[char], b: &[char]) -> (r: bool)
    ensures
        r == (a@ == b@),
{
    if a.len() != b.len() {
        return false;
    }
    for i in 0..a.len()
        invariant
            a@.len() == b@.len(),
            forall|j: int| 0 <= j < i ==> a@[j] == b@[j],
    {
        if a[i] != b[i] {
            return false;
        }
    }
    proof {
        assert(a@ =~= b@);
    }
    true
}

pub fn is_text(s: &[char], t: &str) -> (r: bool)
    ensures
        r == (s@ == t@),
{
    same(s, chars(t).as_slice())
}

pub fn str_eq(a: &str, b: &str) -> (r: bool)
    ensures
        r == (a@ == b@),
{
    same(chars(a).as_slice(), chars(b).as_slice())
}

pub fn starts_with(s: &[char], prefix: &[char]) -> (r: bool)
    ensures
        r == starts(s@, prefix@),
{
    if s.len() < prefix.len() {
        return false;
    }
    proof {
        assert(s@.subrange(0, prefix@.len() as int) =~= s@.take(prefix@.len() as int));
    }
    same(slice_subrange(s, 0, prefix.len()), prefix)
}

pub fn ends_with(s: &[char], suffix: &[char]) -> (r: bool)
    ensures
        r == ends(s@, suffix@),
{
    if s.len() < suffix.len() {
        return false;
    }
    let from: usize = s.len() - suffix.len();
    proof {
        assert(s@.subrange(from as int, s@.len() as int) =~= s@.skip(from as int));
    }
    same(slice_subrange(s, from, s.len()), suffix)
}

pub open spec fn slice_view(s: Option<&[char]>) -> Option<Seq<char>> {
    match s {
        Some(t) => Some(t@),
        None => None,
    }
}

pub fn strip_prefix<'a>(s: &'a [char], prefix: &str) -> (r: Option<&'a [char]>)
    ensures
        slice_view(r) == without_prefix(s@, prefix@),
{
    let p = chars(prefix);
    if starts_with(s, p.as_slice()) {
        proof {
            assert(s@.subrange(p@.len() as int, s@.len() as int) =~= s@.skip(p@.len() as int));
        }
        Some(slice_subrange(s, p.len(), s.len()))
    } else {
        None
    }
}

pub fn starts_with_str(s: &[char], prefix: &str) -> (r: bool)
    ensures
        r == starts(s@, prefix@),
{
    starts_with(s, chars(prefix).as_slice())
}

pub fn contains(s: &[char], needle: &str) -> (r: bool)
    ensures
        r == mentions(s@, needle@),
{
    find_str(s, needle).is_some()
}

pub fn find_str(s: &[char], needle: &str) -> (r: Option<usize>)
    ensures
        match r {
            Some(i) => occurs_at(s@, needle@, i as int) && forall|j: int|
                j < i ==> !occurs_at(s@, needle@, j),
            None => !mentions(s@, needle@),
        },
{
    let n = chars(needle);
    let mut i: usize = 0;
    while i <= s.len() && n.len() <= s.len() - i
        invariant
            n@ == needle@,
            i <= s@.len() + 1,
            forall|j: int| j < i ==> !occurs_at(s@, needle@, j),
        decreases s@.len() + 1 - i,
    {
        if same(slice_subrange(s, i, i + n.len()), n.as_slice()) {
            return Some(i);
        }
        if i == s.len() {
            proof {
                assert forall|j: int| !occurs_at(s@, needle@, j) by {
                    if j == i {
                    }
                }
            }
            return None;
        }
        i = i + 1;
    }
    None
}

pub fn lower(s: &[char]) -> (r: Vec<char>)
    ensures
        r@ == lowered(s@),
{
    let mut r: Vec<char> = Vec::new();
    for i in 0..s.len()
        invariant
            r@.len() == i,
            forall|j: int| 0 <= j < i ==> r@[j] == lower_char(s@[j]),
    {
        let c = s[i];
        if 'A' <= c && c <= 'Z' {
            r.push((c as u8 + 32) as char);
        } else {
            r.push(c);
        }
    }
    proof {
        assert(r@ =~= lowered(s@));
    }
    r
}

pub fn upper(s: &[char]) -> (r: Vec<char>)
    ensures
        r@ == uppered(s@),
{
    let mut r: Vec<char> = Vec::new();
    for i in 0..s.len()
        invariant
            r@.len() == i,
            forall|j: int| 0 <= j < i ==> r@[j] == upper_char(s@[j]),
    {
        let c = s[i];
        if 'a' <= c && c <= 'z' {
            r.push((c as u8 - 32) as char);
        } else {
            r.push(c);
        }
    }
    proof {
        assert(r@ =~= uppered(s@));
    }
    r
}

pub fn replace(s: &[char], from: char, to: char) -> (r: Vec<char>)
    ensures
        r@ == replaced(s@, from, to),
{
    let mut r: Vec<char> = Vec::new();
    for i in 0..s.len()
        invariant
            r@.len() == i,
            forall|j: int|
                0 <= j < i ==> r@[j] == (if s@[j] == from {
                    to
                } else {
                    s@[j]
                }),
    {
        r.push(
            if s[i] == from {
                to
            } else {
                s[i]
            },
        );
    }
    proof {
        assert(r@ =~= replaced(s@, from, to));
    }
    r
}

pub fn only_digits(s: &[char]) -> (r: bool)
    ensures
        r == all_digits(s@),
{
    for i in 0..s.len()
        invariant
            forall|j: int| 0 <= j < i ==> digit(s@[j]),
    {
        if CharClass::NonDigit.holds(s[i]) {
            return false;
        }
    }
    true
}

pub fn cat2(a: &str, b: &str) -> (r: String)
    ensures
        r@ == a@ + b@,
{
    let mut r = String::from_str(a);
    r.append(b);
    r
}

pub fn cat3(a: &str, b: &str, c: &str) -> (r: String)
    ensures
        r@ == a@ + b@ + c@,
{
    let mut r = cat2(a, b);
    r.append(c);
    r
}

pub fn cat4(a: &str, b: &str, c: &str, d: &str) -> (r: String)
    ensures
        r@ == a@ + b@ + c@ + d@,
{
    let mut r = cat3(a, b, c);
    r.append(d);
    r
}

pub fn cat5(a: &str, b: &str, c: &str, d: &str, e: &str) -> (r: String)
    ensures
        r@ == a@ + b@ + c@ + d@ + e@,
{
    let mut r = cat4(a, b, c, d);
    r.append(e);
    r
}

pub fn join(parts: &Vec<String>, sep: &str) -> (r: String)
    ensures
        r@ == joined(texts(parts@), sep@),
{
    let mut r = String::new();
    for i in 0..parts.len()
        invariant
            r@ == joined(texts(parts@).take(i as int), sep@),
    {
        proof {
            assert(texts(parts@).take(i as int + 1).drop_last() =~= texts(parts@).take(i as int));
        }
        if i > 0 {
            r.append(sep);
            r.append(parts[i].as_str());
        } else {
            proof {
                assert(r@ + parts@[i as int]@ =~= parts@[i as int]@);
            }
            r.append(parts[i].as_str());
        }
    }
    proof {
        assert(texts(parts@).take(parts@.len() as int) =~= texts(parts@));
    }
    r
}

/// The digit that stands for a value below sixteen.
pub open spec fn digit_char(d: int) -> char {
    if d < 10 {
        (48 + d) as char
    } else {
        (87 + d) as char
    }
}

/// The digits of a number, without leading zeros.
pub open spec fn digits(n: nat, base: nat) -> Seq<char>
    decreases n,
{
    if base < 2 || n < base {
        seq![digit_char(n as int)]
    } else {
        proof {
            assert(n / base < n) by (nonlinear_arith)
                requires
                    base >= 2,
                    n >= base,
            ;
        }
        digits(n / base, base).push(digit_char((n % base) as int))
    }
}

/// The digits of a number, with zeros in front up to the width.
pub open spec fn padded(n: nat, base: nat, width: nat) -> Seq<char> {
    let d = digits(n, base);
    if d.len() < width {
        Seq::new((width - d.len()) as nat, |i: int| '0') + d
    } else {
        d
    }
}

pub open spec fn decimal(n: nat) -> Seq<char> {
    digits(n, 10)
}

/// A number is written in decimal digits only, and no other number is written the same.
pub proof fn decimals_are_distinct(n: nat, other: nat)
    ensures
        decimal(n).len() > 0,
        '0' <= decimal(n)[0] <= '9',
        decimal(n) == decimal(other) ==> n == other,
    decreases n,
{
    if n >= 10 {
        decimals_are_distinct(n / 10, other / 10);
        assert(decimal(n)[0] == decimal(n / 10)[0]);
        if other >= 10 && decimal(n) == decimal(other) {
            assert(decimal(n).drop_last() =~= decimal(n / 10));
            assert(decimal(other).drop_last() =~= decimal(other / 10));
            assert(decimal(n).last() == digit_char((n % 10) as int));
            assert(decimal(other).last() == digit_char((other % 10) as int));
        }
        if other < 10 {
            assert(decimal(n).len() > 1);
            assert(decimal(other).len() == 1);
        }
    } else if other >= 10 {
        assert(decimal(other).len() > 1) by {
            reveal_with_fuel(digits, 2);
        }
        assert(decimal(n).len() == 1);
    } else {
        assert(decimal(n)[0] == digit_char(n as int));
        assert(decimal(other)[0] == digit_char(other as int));
    }
}

fn digit_of(d: u8) -> (c: char)
    requires
        d < 16,
    ensures
        c == digit_char(d as int),
{
    if d < 10 {
        (48 + d) as char
    } else {
        (87 + d) as char
    }
}

fn number(n: u64, base: u64) -> (r: String)
    requires
        2 <= base <= 16,
    ensures
        r@ == digits(n as nat, base as nat),
    decreases n,
{
    if n < base {
        let mut r = String::new();
        push_char(&mut r, digit_of(n as u8));
        proof {
            assert(r@ =~= seq![digit_char(n as int)]);
        }
        r
    } else {
        let quotient: u64 = n / base;
        let remainder: u64 = n % base;
        proof {
            assert(quotient < n) by (nonlinear_arith)
                requires
                    quotient == n / base,
                    n >= base,
                    base >= 2,
            ;
        }
        let mut r = number(quotient, base);
        push_char(&mut r, digit_of(remainder as u8));
        r
    }
}

pub fn decimal_text(n: u64) -> (r: String)
    ensures
        r@ == decimal(n as nat),
{
    number(n, 10)
}

pub fn octal_text(n: u64) -> (r: String)
    ensures
        r@ == digits(n as nat, 8),
{
    number(n, 8)
}

fn padded_number(n: u64, base: u64, width: usize) -> (r: String)
    requires
        2 <= base <= 16,
    ensures
        r@ == padded(n as nat, base as nat, width as nat),
{
    let d = number(n, base);
    let len: usize = d.as_str().unicode_len();
    if len < width {
        let mut r = String::new();
        for i in 0..width - len
            invariant
                r@ == Seq::new(i as nat, |j: int| '0'),
        {
            push_char(&mut r, '0');
            proof {
                assert(r@ =~= Seq::new((i + 1) as nat, |j: int| '0'));
            }
        }
        r.append(d.as_str());
        r
    } else {
        d
    }
}

pub fn hex_text(n: u64, width: usize) -> (r: String)
    ensures
        r@ == padded(n as nat, 16, width as nat),
{
    padded_number(n, 16, width)
}

pub fn padded_octal_text(n: u64, width: usize) -> (r: String)
    ensures
        r@ == padded(n as nat, 8, width as nat),
{
    padded_number(n, 8, width)
}

/// The value of a digit of any base up to sixteen.
pub open spec fn digit_value(c: char) -> Option<int> {
    if '0' <= c <= '9' {
        Some(c as int - 48)
    } else if 'a' <= c <= 'f' {
        Some(c as int - 87)
    } else if 'A' <= c <= 'F' {
        Some(c as int - 55)
    } else {
        None
    }
}

pub open spec fn is_number(s: Seq<char>, base: int) -> bool {
    s.len() > 0 && forall|i: int|
        0 <= i < s.len() ==> (digit_value(#[trigger] s[i]) matches Some(d) && d < base)
}

/// The number that a sequence of digits writes.
pub open spec fn value_of(s: Seq<char>, base: int) -> int
    decreases s.len(),
{
    if s.len() == 0 {
        0
    } else {
        value_of(s.drop_last(), base) * base + digit_value(s.last())->0
    }
}

/// An unsigned number no larger than the limit, with an optional plus sign in front.
pub open spec fn parsed(s: Seq<char>, base: int, limit: int) -> Option<int> {
    let t = if s.len() > 0 && s[0] == '+' {
        s.skip(1)
    } else {
        s
    };
    if is_number(t, base) && value_of(t, base) <= limit {
        Some(value_of(t, base))
    } else {
        None
    }
}

fn value_of_digit(c: char) -> (r: Option<u8>)
    ensures
        match r {
            Some(d) => digit_value(c) == Some(d as int) && d < 16,
            None => digit_value(c) is None,
        },
{
    if '0' <= c && c <= '9' {
        Some(c as u8 - 48)
    } else if 'a' <= c && c <= 'f' {
        Some(c as u8 - 87)
    } else if 'A' <= c && c <= 'F' {
        Some(c as u8 - 55)
    } else {
        None
    }
}

proof fn lemma_value_grows(s: Seq<char>, n: int, base: int)
    requires
        0 <= n <= s.len(),
        is_number(s, base),
        base >= 2,
    ensures
        0 <= value_of(s.take(n), base) <= value_of(s, base),
    decreases s.len(),
{
    if s.len() == n {
        assert(s.take(n) =~= s);
        if n > 1 {
            let t = s.drop_last();
            assert forall|i: int| 0 <= i < t.len() implies (digit_value(#[trigger] t[i]) matches Some(
                d,
            ) && d < base) by {
                assert(t[i] == s[i]);
            }
            lemma_value_grows(t, t.len() as int, base);
            assert(t.take(t.len() as int) =~= t);
            assert(value_of(t, base) * base >= 0) by (nonlinear_arith)
                requires
                    value_of(t, base) >= 0,
                    base >= 2,
            ;
            assert(digit_value(s[s.len() - 1]) is Some);
        } else if n == 1 {
            assert(digit_value(s[0]) is Some);
            assert(value_of(s.drop_last(), base) == 0);
            assert(0 * base == 0) by (nonlinear_arith);
        }
    } else {
        let t = s.drop_last();
        assert(digit_value(s[s.len() - 1]) is Some);
        if t.len() > 0 {
            assert forall|i: int| 0 <= i < t.len() implies (digit_value(#[trigger] t[i]) matches Some(
                d,
            ) && d < base) by {
                assert(t[i] == s[i]);
            }
            lemma_value_grows(t, n, base);
            assert(t.take(n) =~= s.take(n));
            assert(value_of(t, base) * base >= value_of(t, base)) by (nonlinear_arith)
                requires
                    value_of(t, base) >= 0,
                    base >= 2,
            ;
        } else {
            assert(s.take(n) =~= t);
            assert(0 * base == 0) by (nonlinear_arith);
        }
    }
}

pub fn parse_number(s: &[char], base: u32, limit: u32) -> (r: Option<u32>)
    requires
        2 <= base <= 16,
    ensures
        match r {
            Some(n) => parsed(s@, base as int, limit as int) == Some(n as int),
            None => parsed(s@, base as int, limit as int) is None,
        },
{
    let t: &[char] = if s.len() > 0 && s[0] == '+' {
        proof {
            assert(s@.subrange(1, s@.len() as int) =~= s@.skip(1));
        }
        slice_subrange(s, 1, s.len())
    } else {
        s
    };
    if t.len() == 0 {
        return None;
    }
    let mut total: u64 = 0;
    for i in 0..t.len()
        invariant
            2 <= base <= 16,
            total == value_of(t@.take(i as int), base as int),
            total <= limit,
            t@.len() > 0,
            parsed(s@, base as int, limit as int) == (if is_number(t@, base as int) && value_of(
                t@,
                base as int,
            ) <= limit {
                Some(value_of(t@, base as int))
            } else {
                None
            }),
            forall|j: int|
                0 <= j < i ==> (digit_value(#[trigger] t@[j]) matches Some(d) && d < base),
    {
        match value_of_digit(t[i]) {
            Some(d) if (d as u32) < base => {
                proof {
                    assert(t@.take(i as int + 1).drop_last() =~= t@.take(i as int));
                    assert(total * base <= 0xffff_ffff * 16) by (nonlinear_arith)
                        requires
                            total <= 0xffff_ffff,
                            base <= 16,
                    ;
                    assert(total * base >= 0) by (nonlinear_arith);
                }
                total = total * (base as u64) + d as u64;
                if total > limit as u64 {
                    proof {
                        if is_number(t@, base as int) {
                            lemma_value_grows(t@, i as int + 1, base as int);
                        }
                    }
                    return None;
                }
            },
            _ => {
                proof {
                    assert(!(digit_value(t@[i as int]) matches Some(d) && d < base));
                }
                return None;
            },
        }
    }
    proof {
        assert(t@.take(t@.len() as int) =~= t@);
    }
    Some(total as u32)
}

pub proof fn lemma_append(a: Seq<char>, b: Seq<char>, c: Seq<char>)
    ensures
        (a + b) + c == a + (b + c),
{
    assert((a + b) + c =~= a + (b + c));
}

pub proof fn lemma_texts_push(parts: Seq<String>, part: String)
    ensures
        texts(parts.push(part)) == texts(parts).push(part@),
{
    assert(texts(parts.push(part)) =~= texts(parts).push(part@));
}

pub proof fn lemma_take_push<A>(s: Seq<A>, i: int)
    requires
        0 <= i < s.len(),
    ensures
        s.take(i).push(s[i]) == s.take(i + 1),
        s.take(i + 1).drop_last() == s.take(i),
        s.take(i + 1).last() == s[i],
{
    assert(s.take(i).push(s[i]) =~= s.take(i + 1));
    assert(s.take(i + 1).drop_last() =~= s.take(i));
}

/// Owned copies of a list of character slices.
pub fn strings(parts: &Vec<&[char]>) -> (r: Vec<String>)
    ensures
        texts(r@) == views(parts@),
{
    let mut r: Vec<String> = Vec::new();
    proof {
        assert(texts(r@) =~= views(parts@).take(0));
    }
    for i in 0..parts.len()
        invariant
            texts(r@) == views(parts@).take(i as int),
    {
        let part = string(parts[i]);
        proof {
            lemma_texts_push(r@, part);
            lemma_take_push(views(parts@), i as int);
        }
        r.push(part);
    }
    proof {
        assert(views(parts@).take(parts@.len() as int) =~= views(parts@));
    }
    r
}

/// The text without the prefix, however often it stands at the front.
pub open spec fn without_prefixes(s: Seq<char>, prefix: Seq<char>) -> Seq<char>
    decreases s.len(),
{
    if 0 < prefix.len() && starts(s, prefix) {
        without_prefixes(s.skip(prefix.len() as int), prefix)
    } else {
        s
    }
}

pub fn strip_prefixes<'a>(s: &'a [char], prefix: &str) -> (r: &'a [char])
    ensures
        r@ == without_prefixes(s@, prefix@),
{
    if prefix.is_empty() {
        return s;
    }
    let mut rest: &'a [char] = s;
    loop
        invariant
            prefix@.len() > 0,
            without_prefixes(rest@, prefix@) == without_prefixes(s@, prefix@),
        decreases rest@.len(),
    {
        match strip_prefix(rest, prefix) {
            Some(tail) => {
                rest = tail;
            },
            None => {
                return rest;
            },
        }
    }
}

/// What follows the first occurrence of the needle.
pub open spec fn after_first(s: Seq<char>, needle: Seq<char>) -> Option<Seq<char>>
    decreases s.len(),
{
    if starts(s, needle) {
        Some(s.skip(needle.len() as int))
    } else if s.len() == 0 {
        None
    } else {
        after_first(s.skip(1), needle)
    }
}

pub fn cut_after<'a>(s: &'a [char], needle: &str) -> (r: Option<&'a [char]>)
    ensures
        slice_view(r) == after_first(s@, needle@),
{
    let n = chars(needle);
    let mut i: usize = 0;
    proof {
        assert(s@.skip(0) =~= s@);
    }
    while i <= s.len()
        invariant
            n@ == needle@,
            i <= s@.len() + 1,
            i <= s@.len() ==> after_first(s@, needle@) == after_first(s@.skip(i as int), needle@),
            i > s@.len() ==> after_first(s@, needle@) is None,
        decreases s@.len() + 1 - i,
    {
        let rest = slice_subrange(s, i, s.len());
        proof {
            assert(rest@ =~= s@.skip(i as int));
        }
        if starts_with(rest, n.as_slice()) {
            let tail = slice_subrange(rest, n.len(), rest.len());
            proof {
                assert(tail@ =~= rest@.skip(n@.len() as int));
            }
            return Some(tail);
        }
        if i == s.len() {
            return None;
        }
        proof {
            assert(rest@.skip(1) =~= s@.skip(i as int + 1));
        }
        i = i + 1;
    }
    None
}

/// The order of text by its characters' code points, which is the order of its UTF-8 bytes.
pub open spec fn text_less(a: Seq<char>, b: Seq<char>) -> bool
    decreases a.len(),
{
    if b.len() == 0 {
        false
    } else if a.len() == 0 {
        true
    } else if a[0] != b[0] {
        a[0] < b[0]
    } else {
        text_less(a.skip(1), b.skip(1))
    }
}

pub fn is_less(a: &[char], b: &[char]) -> (r: bool)
    ensures
        r == text_less(a@, b@),
{
    let mut i: usize = 0;
    proof {
        assert(a@.skip(0) =~= a@);
        assert(b@.skip(0) =~= b@);
    }
    while i < a.len() && i < b.len()
        invariant
            i <= a@.len(),
            i <= b@.len(),
            text_less(a@, b@) == text_less(a@.skip(i as int), b@.skip(i as int)),
        decreases a@.len() - i,
    {
        if a[i] != b[i] {
            return a[i] < b[i];
        }
        proof {
            assert(a@.skip(i as int).skip(1) =~= a@.skip(i as int + 1));
            assert(b@.skip(i as int).skip(1) =~= b@.skip(i as int + 1));
        }
        i = i + 1;
    }
    i < b.len()
}

/// Of two texts, one is the smaller unless they are the same.
pub proof fn text_order_is_total(a: Seq<char>, b: Seq<char>)
    ensures
        text_less(a, b) || text_less(b, a) || a == b,
        !(text_less(a, b) && text_less(b, a)),
        !text_less(a, a),
    decreases a.len(),
{
    if a.len() > 0 && b.len() > 0 {
        text_order_is_total(a.skip(1), b.skip(1));
        if a[0] == b[0] && a.skip(1) == b.skip(1) {
            assert(a =~= seq![a[0]] + a.skip(1));
            assert(b =~= seq![b[0]] + b.skip(1));
        }
    } else if a.len() == 0 && b.len() == 0 {
        assert(a =~= b);
    } else if a.len() > 0 {
        text_order_is_total(a.skip(1), a.skip(1));
    }
}

/// Text that is smaller than a smaller text is smaller.
pub proof fn text_order_is_transitive(a: Seq<char>, b: Seq<char>, c: Seq<char>)
    requires
        text_less(a, b),
        text_less(b, c),
    ensures
        text_less(a, c),
    decreases a.len(),
{
    if a.len() > 0 && b.len() > 0 && c.len() > 0 && a[0] == b[0] && b[0] == c[0] {
        text_order_is_transitive(a.skip(1), b.skip(1), c.skip(1));
    }
}

pub open spec fn signed(n: int) -> Seq<char> {
    if n < 0 {
        "-"@ + decimal((-n) as nat)
    } else {
        decimal(n as nat)
    }
}

pub fn signed_text(n: i32) -> (r: String)
    ensures
        r@ == signed(n as int),
{
    if n < 0 {
        let size = decimal_text((-(n as i64)) as u64);
        cat2("-", size.as_str())
    } else {
        decimal_text(n as u64)
    }
}

/// None of the characters is of the class.
pub open spec fn free_of(s: Seq<char>, class: CharClass) -> bool {
    forall|i: int| 0 <= i < s.len() ==> !in_class(#[trigger] s[i], class)
}

/// All of the characters are of the class.
pub open spec fn all_of(s: Seq<char>, class: CharClass) -> bool {
    forall|i: int| 0 <= i < s.len() ==> in_class(#[trigger] s[i], class)
}

/// The classes by their code points. White space is what separates words, a digit is one of ten, and
/// no letter, digit or punctuation mark of ASCII is white.
pub proof fn classes_by_code_points(c: char, d: char)
    ensures
        in_class(c, CharClass::AsciiWhite) ==> in_class(c, CharClass::White),
        in_class(c, CharClass::AsciiWhite) <==> ((c as int) == 9 || (c as int) == 10 || (c as int)
            == 12 || (c as int) == 13 || (c as int) == 32),
        (c as int) < 0x85 ==> (in_class(c, CharClass::White) <==> ((c as int) == 32 || 9 <= (
        c as int) <= 13)),
        (c as int) >= 0x85 ==> (in_class(c, CharClass::White) <==> ((c as int) == 0x85 || (c as int)
            == 0xa0 || (c as int) == 0x1680 || 0x2000 <= (c as int) <= 0x200a || (c as int) == 0x2028
            || (c as int) == 0x2029 || (c as int) == 0x202f || (c as int) == 0x205f || (c as int)
            == 0x3000)),
        in_class(c, CharClass::Quote) <==> ((c as int) == 34 || (c as int) == 39),
        in_class(c, CharClass::Bracket) <==> ((c as int) == 91 || (c as int) == 93),
        in_class(c, CharClass::NonDigit) <==> !(48 <= (c as int) <= 57),
        digit(c) <==> !in_class(c, CharClass::NonDigit),
        in_class(c, CharClass::Is(d)) <==> c == d,
{
}

proof fn lemma_front_goes(front: Seq<char>, rest: Seq<char>, class: CharClass)
    requires
        all_of(front, class),
    ensures
        trimmed_front(front + rest, class) == trimmed_front(rest, class),
    decreases front.len(),
{
    if front.len() == 0 {
        assert(front + rest =~= rest);
    } else {
        let fewer = front.skip(1);
        assert forall|i: int| 0 <= i < fewer.len() implies in_class(#[trigger] fewer[i], class) by {
            assert(fewer[i] == front[i + 1]);
        }
        lemma_front_goes(fewer, rest, class);
        assert((front + rest)[0] == front[0]);
        assert((front + rest).skip(1) =~= fewer + rest);
    }
}

proof fn lemma_back_goes(rest: Seq<char>, back: Seq<char>, class: CharClass)
    requires
        all_of(back, class),
    ensures
        trimmed_back(rest + back, class) == trimmed_back(rest, class),
    decreases back.len(),
{
    if back.len() == 0 {
        assert(rest + back =~= rest);
    } else {
        let fewer = back.drop_last();
        assert forall|i: int| 0 <= i < fewer.len() implies in_class(#[trigger] fewer[i], class) by {
            assert(fewer[i] == back[i]);
        }
        lemma_back_goes(rest, fewer, class);
        assert((rest + back).last() == back[back.len() - 1]);
        assert((rest + back).drop_last() =~= rest + fewer);
    }
}

/// Trimming takes off what is of the class at both ends, however much there is, and keeps everything
/// between, also what is of the class there.
pub proof fn trimming_takes_off_both_ends_alone(
    front: Seq<char>,
    middle: Seq<char>,
    back: Seq<char>,
    class: CharClass,
)
    requires
        all_of(front, class),
        all_of(back, class),
        middle.len() > 0 ==> !in_class(middle[0], class) && !in_class(middle.last(), class),
    ensures
        trimmed(front + middle + back, class) == middle,
{
    let s = front + middle + back;
    if middle.len() > 0 {
        assert(s =~= front + (middle + back));
        lemma_front_goes(front, middle + back, class);
        assert((middle + back)[0] == middle[0]);
        lemma_back_goes(middle, back, class);
    } else {
        assert forall|i: int| 0 <= i < s.len() implies in_class(#[trigger] s[i], class) by {
            if i < front.len() {
                assert(s[i] == front[i]);
            } else {
                assert(s[i] == back[i - front.len()]);
            }
        }
        let nothing = Seq::<char>::empty();
        assert(s =~= s + nothing);
        lemma_front_goes(s, nothing, class);
        assert(middle =~= nothing);
    }
}

/// What stands before the first character of the class, and on its two sides, whatever else stands in
/// the text.
pub proof fn text_is_cut_at_the_first_of_a_class(
    before_it: Seq<char>,
    c: char,
    after_it: Seq<char>,
    class: CharClass,
)
    requires
        free_of(before_it, class),
        in_class(c, class),
    ensures
        before(before_it.push(c) + after_it, class) == before_it,
        split_first(before_it.push(c) + after_it, class) == Some((before_it, after_it)),
        pieces(before_it.push(c) + after_it, class) == seq![before_it] + pieces(after_it, class),
        before(before_it, class) == before_it,
        split_first(before_it, class) is None,
        pieces(before_it, class) == seq![before_it],
{
    let s = before_it.push(c) + after_it;
    let n = before_it.len() as int;
    assert forall|j: int| 0 <= j < n implies !in_class(s[j], class) by {
        assert(s[j] == before_it[j]);
    }
    assert(s[n] == c);
    lemma_first_in(s, class, n);
    lemma_first_in(before_it, class, n);
    assert(s.take(n) =~= before_it);
    assert(s.skip(n + 1) =~= after_it);
    assert(before_it.take(n) =~= before_it);
}

/// What stands after the last slash, or after the last of any other character, holds none.
pub proof fn the_last_piece_follows_the_last_separator(
    before_it: Seq<char>,
    c: char,
    after_it: Seq<char>,
)
    requires
        free_of(after_it, CharClass::Is(c)),
    ensures
        after_last(before_it.push(c) + after_it, c) == after_it,
        after_last(after_it, c) == after_it,
    decreases before_it.len(),
{
    let class = CharClass::Is(c);
    lemma_first_in(after_it, class, after_it.len() as int);
    let s = before_it.push(c) + after_it;
    let n = before_it.len() as int;
    assert(s[n] == c);
    first_in_is_first(s, class);
    let i = first_in(s, class);
    assert(0 <= i <= n) by {
        if i > n {
            assert(!in_class(s[n], class));
        }
    }
    assert(after_last(after_it, c) == after_it);
    if i == n {
        assert(s.skip(n + 1) =~= after_it);
    } else {
        the_last_piece_follows_the_last_separator(before_it.skip(i + 1), c, after_it);
        assert(s.skip(i + 1) =~= before_it.skip(i + 1).push(c) + after_it);
    }
}

/// A separator between two texts ends the words of the one and begins those of the other, wherever it
/// stands.
pub proof fn words_end_at_every_separator(
    left: Seq<char>,
    c: char,
    right: Seq<char>,
    class: CharClass,
)
    requires
        in_class(c, class),
    ensures
        words_of(left.push(c) + right, class) == words_of(left, class) + words_of(right, class),
    decreases left.len(),
{
    let s = left.push(c) + right;
    let n = left.len() as int;
    assert(s[n] == c);
    if n == 0 {
        assert(s.skip(1) =~= right);
        assert(words_of(left, class) + words_of(right, class) =~= words_of(right, class));
    } else {
        assert(s[0] == left[0]);
        if in_class(left[0], class) {
            words_end_at_every_separator(left.skip(1), c, right, class);
            assert(s.skip(1) =~= left.skip(1).push(c) + right);
        } else {
            first_in_is_first(left, class);
            let i = first_in(left, class);
            assert forall|j: int| 0 <= j < i implies !in_class(s[j], class) by {
                assert(s[j] == left[j]);
            }
            if i < n {
                assert(s[i] == left[i]);
            }
            lemma_first_in(s, class, i);
            words_end_at_every_separator(left.skip(i), c, right, class);
            assert(s.take(i) =~= left.take(i));
            assert(s.skip(i) =~= left.skip(i).push(c) + right);
            assert(seq![left.take(i)] + (words_of(left.skip(i), class) + words_of(right, class))
                =~= (seq![left.take(i)] + words_of(left.skip(i), class)) + words_of(right, class));
        }
    }
}

/// Text without a separator is one word, and no text is no word.
pub proof fn text_without_separators_is_one_word(word: Seq<char>, class: CharClass)
    requires
        free_of(word, class),
    ensures
        words_of(word, class) == (if word.len() == 0 {
            seq![]
        } else {
            seq![word]
        }),
{
    if word.len() > 0 {
        lemma_first_in(word, class, word.len() as int);
        assert(!in_class(word[0], class));
        assert(word.take(word.len() as int) =~= word);
        assert(word.skip(word.len() as int) =~= Seq::<char>::empty());
        assert(words_of(word.skip(word.len() as int), class) =~= seq![]);
        assert(words_of(word, class) =~= seq![word]);
    }
}

/// A line ends at its line feed, a carriage return right before which is not part of it. The last line
/// needs neither, and keeps a carriage return.
pub proof fn lines_end_at_line_feeds(line: Seq<char>, rest: Seq<char>)
    requires
        free_of(line, CharClass::Is('\n')),
    ensures
        line.len() == 0 || line.last() != '\r' ==> lines_of(line.push('\n') + rest) == seq![line]
            + lines_of(rest),
        lines_of(line.push('\r').push('\n') + rest) == seq![line] + lines_of(rest),
        lines_of(line) == (if line.len() == 0 {
            seq![]
        } else {
            seq![line]
        }),
{
    let class = CharClass::Is('\n');
    text_is_cut_at_the_first_of_a_class(line, '\n', rest, class);
    let s = line.push('\n') + rest;
    let n = line.len() as int;
    assert forall|j: int| 0 <= j < n implies !in_class(s[j], class) by {
        assert(s[j] == line[j]);
    }
    assert(s[n] == '\n');
    lemma_first_in(s, class, n);
    lemma_first_in(line, class, n);
    assert(s.take(n) =~= line);
    assert(s.skip(n + 1) =~= rest);
    let t = line.push('\r').push('\n') + rest;
    assert forall|j: int| 0 <= j < n + 1 implies !in_class(t[j], class) by {
        if j < n {
            assert(t[j] == line[j]);
        } else {
            assert(t[j] == '\r');
        }
    }
    assert(t[n + 1] == '\n');
    lemma_first_in(t, class, n + 1);
    assert(t.take(n + 1) =~= line.push('\r'));
    assert(line.push('\r').drop_last() =~= line);
    assert(t.skip(n + 2) =~= rest);
}

/// A text mentions another exactly when it is that text with something, or nothing, around it; it
/// starts or ends with it where nothing stands on that side.
pub proof fn a_mentioned_text_stands_somewhere(s: Seq<char>, needle: Seq<char>)
    ensures
        mentions(s, needle) <==> exists|left: Seq<char>, right: Seq<char>|
            s == #[trigger] (left + needle + right),
        starts(s, needle) <==> exists|right: Seq<char>| s == #[trigger] (needle + right),
        ends(s, needle) <==> exists|left: Seq<char>| s == #[trigger] (left + needle),
        starts(s, needle) || ends(s, needle) ==> mentions(s, needle),
{
    let n = needle.len() as int;
    if mentions(s, needle) {
        let i = choose|i: int| occurs_at(s, needle, i);
        assert(s =~= s.take(i) + needle + s.skip(i + n)) by {
            assert forall|k: int| i <= k < i + n implies s[k] == needle[k - i] by {
                assert(s.subrange(i, i + n)[k - i] == s[k]);
            }
        }
    }
    assert forall|left: Seq<char>, right: Seq<char>|
        s == #[trigger] (left + needle + right) implies mentions(s, needle) by {
        let i = left.len() as int;
        assert(s.subrange(i, i + n) =~= needle);
        assert(occurs_at(s, needle, i));
    }
    if starts(s, needle) {
        assert(s =~= needle + s.skip(n)) by {
            assert forall|k: int| 0 <= k < n implies s[k] == needle[k] by {
                assert(s.take(n)[k] == s[k]);
            }
        }
        assert(s.subrange(0, n) =~= needle) by {
            assert(s.take(n) =~= s.subrange(0, n));
        }
        assert(occurs_at(s, needle, 0));
    }
    assert forall|right: Seq<char>| s == #[trigger] (needle + right) implies starts(s, needle) by {
        assert(s.take(n) =~= needle);
    }
    if ends(s, needle) {
        let i = s.len() - n;
        assert(s =~= s.take(i) + needle) by {
            assert forall|k: int| i <= k < s.len() implies s[k] == needle[k - i] by {
                assert(s.skip(i)[k - i] == s[k]);
            }
        }
        assert(s.subrange(i, i + n) =~= needle) by {
            assert(s.skip(i) =~= s.subrange(i, i + n));
        }
        assert(occurs_at(s, needle, i));
    }
    assert forall|left: Seq<char>| s == #[trigger] (left + needle) implies ends(s, needle) by {
        assert(s.skip(s.len() - n) =~= needle);
    }
}

/// Taking a prefix off undoes putting it on, and a text that does not begin with it has none to take
/// off. Taking off all of them leaves none.
pub proof fn prefixes_come_off_again(s: Seq<char>, prefix: Seq<char>)
    ensures
        without_prefix(prefix + s, prefix) == Some(s),
        without_prefix(s, prefix) matches Some(rest) ==> s == prefix + rest,
        without_prefix(s, prefix) is None <==> !starts(s, prefix),
        prefix.len() > 0 ==> without_prefixes(prefix + s, prefix) == without_prefixes(s, prefix)
            && !starts(without_prefixes(s, prefix), prefix),
        !starts(s, prefix) ==> without_prefixes(s, prefix) == s,
    decreases s.len(),
{
    let n = prefix.len() as int;
    assert((prefix + s).take(n) =~= prefix);
    assert((prefix + s).skip(n) =~= s);
    if starts(s, prefix) {
        assert(s =~= s.take(n) + s.skip(n));
        if n > 0 {
            prefixes_come_off_again(s.skip(n), prefix);
        }
    }
}

/// What is left after a text is what follows its first occurrence, and there is something to cut at
/// exactly where the text is mentioned.
pub proof fn the_rest_follows_the_first_occurrence(s: Seq<char>, needle: Seq<char>)
    ensures
        after_first(s, needle) is Some <==> mentions(s, needle),
        after_first(s, needle) matches Some(rest) ==> {
            let at = s.len() - rest.len() - needle.len();
            &&& occurs_at(s, needle, at)
            &&& rest == s.skip(at + needle.len())
            &&& forall|j: int| j < at ==> !occurs_at(s, needle, j)
        },
    decreases s.len(),
{
    let n = needle.len() as int;
    if s.len() >= n {
        assert(s.take(n) =~= s.subrange(0, n));
    }
    if starts(s, needle) {
        assert(occurs_at(s, needle, 0));
    } else if s.len() > 0 {
        let t = s.skip(1);
        the_rest_follows_the_first_occurrence(t, needle);
        assert forall|j: int| #[trigger] occurs_at(s, needle, j) implies j > 0 && occurs_at(
            t,
            needle,
            j - 1,
        ) by {
            if j > 0 {
                assert(t.subrange(j - 1, j - 1 + n) =~= s.subrange(j, j + n));
            }
        }
        assert forall|j: int| #[trigger] occurs_at(t, needle, j) implies occurs_at(
            s,
            needle,
            j + 1,
        ) by {
            assert(t.subrange(j, j + n) =~= s.subrange(j + 1, j + 1 + n));
        }
        if let Some(rest) = after_first(s, needle) {
            let at = t.len() - rest.len() - n;
            assert(occurs_at(t, needle, at));
            assert(t.skip(at + n) =~= s.skip(at + 1 + n));
        }
    } else if mentions(s, needle) {
        let i = choose|i: int| occurs_at(s, needle, i);
        assert(s.subrange(i, i + n) =~= s.take(n));
    }
}

/// Changing the case moves the letters of ASCII by 32 and keeps every other character and every place.
pub proof fn case_changes_only_ascii_letters(s: Seq<char>, i: int)
    requires
        0 <= i < s.len(),
    ensures
        lowered(s).len() == s.len(),
        uppered(s).len() == s.len(),
        lowered(s)[i] as int == (if 65 <= (s[i] as int) <= 90 {
            s[i] as int + 32
        } else {
            s[i] as int
        }),
        uppered(s)[i] as int == (if 97 <= (s[i] as int) <= 122 {
            s[i] as int - 32
        } else {
            s[i] as int
        }),
{
}

/// Replacing a character leaves none of it and touches nothing else.
pub proof fn replacing_touches_one_character(s: Seq<char>, from: char, to: char, i: int)
    requires
        0 <= i < s.len(),
    ensures
        replaced(s, from, to).len() == s.len(),
        s[i] == from ==> replaced(s, from, to)[i] == to,
        s[i] != from ==> replaced(s, from, to)[i] == s[i],
{
}

/// Joining two lists puts one separator between what each of them makes alone.
pub proof fn joining_goes_by_parts(left: Seq<Seq<char>>, right: Seq<Seq<char>>, sep: Seq<char>)
    requires
        left.len() > 0,
        right.len() > 0,
    ensures
        joined(left + right, sep) == joined(left, sep) + sep + joined(right, sep),
        left.len() == 1 ==> joined(left, sep) == left[0],
        joined(seq![], sep) == Seq::<char>::empty(),
    decreases right.len(),
{
    let all = left + right;
    assert(all.last() == right.last());
    assert(all.drop_last() =~= left + right.drop_last());
    if right.len() > 1 {
        joining_goes_by_parts(left, right.drop_last(), sep);
        let a = joined(left, sep);
        let b = joined(right.drop_last(), sep);
        assert((a + sep + b) + sep + right.last() =~= a + sep + (b + sep + right.last()));
    } else {
        assert(right.drop_last() =~= seq![]);
        assert(left + right.drop_last() =~= left);
    }
}

/// The digits of a number: they read back as it, stand for the values that everyone gives them, and
/// begin with no zero that could be left out.
pub proof fn digits_read_back(n: nat, base: nat)
    requires
        2 <= base <= 16,
    ensures
        is_number(digits(n, base), base as int),
        value_of(digits(n, base), base as int) == n,
        n > 0 ==> digits(n, base)[0] != '0',
        n == 0 ==> digits(n, base) == seq!['0'],
    decreases n,
{
    let d = digits(n, base);
    if n < base {
        let alone = seq![digit_char(n as int)];
        assert(d =~= alone);
        assert(alone.drop_last() =~= Seq::<char>::empty());
        assert(digit_value(alone[0]) == Some(n as int));
        assert(value_of(alone.drop_last(), base as int) == 0);
        assert(0 * base == 0) by (nonlinear_arith);
        if n == 0 {
            assert(d =~= seq!['0']);
        }
    } else {
        let q = n / base;
        let r = n % base;
        assert(q < n && q > 0 && 0 <= r < base && q * base + r == n) by (nonlinear_arith)
            requires
                q == n / base,
                r == n % base,
                base >= 2,
                n >= base,
        ;
        digits_read_back(q, base);
        let front = digits(q, base);
        assert(d == front.push(digit_char(r as int)));
        assert(d.drop_last() =~= front);
        assert(d.last() == digit_char(r as int));
        assert(digit_value(digit_char(r as int)) == Some(r as int));
        assert(d[0] == front[0]);
        assert forall|i: int| 0 <= i < d.len() implies (digit_value(#[trigger] d[i]) matches Some(v)
            && v < base) by {
            if i < front.len() {
                assert(d[i] == front[i]);
            }
        }
    }
}

/// The characters that digits are written with, in either case.
pub proof fn digits_have_their_values(v: int)
    requires
        0 <= v < 16,
    ensures
        v < 10 ==> digit_char(v) as int == 48 + v,
        v >= 10 ==> digit_char(v) as int == 97 + (v - 10),
        digit_value(digit_char(v)) == Some(v),
        v >= 10 ==> digit_value(upper_char(digit_char(v))) == Some(v),
{
}

/// Zeros in front fill a number up to a width and do not change it.
pub proof fn padding_fills_with_zeros(n: nat, base: nat, width: nat)
    requires
        2 <= base <= 16,
    ensures
        padded(n, base, width).len() >= width,
        padded(n, base, width).len() == width || padded(n, base, width) == digits(n, base),
        ends(padded(n, base, width), digits(n, base)),
        forall|i: int|
            0 <= i < padded(n, base, width).len() - digits(n, base).len() ==> #[trigger] padded(
                n,
                base,
                width,
            )[i] == '0',
{
    let d = digits(n, base);
    let p = padded(n, base, width);
    assert(p.skip(p.len() - d.len()) =~= d);
}

/// A written number reads back within its limit and not beyond it, with or without a sign in front;
/// nothing else is a number.
pub proof fn numbers_read_back(n: nat, base: nat, limit: int, s: Seq<char>)
    requires
        2 <= base <= 16,
    ensures
        parsed(digits(n, base), base as int, limit) == (if n <= limit {
            Some(n as int)
        } else {
            None
        }),
        parsed(seq!['+'] + digits(n, base), base as int, limit) == parsed(
            digits(n, base),
            base as int,
            limit,
        ),
        parsed(seq![], base as int, limit) is None,
        s.len() > 0 && parsed(s, base as int, limit) is Some ==> forall|i: int|
            0 <= i < s.len() ==> (i == 0 && s[i] == '+') || digit_value(#[trigger] s[i]) is Some,
        parsed(s, base as int, limit) matches Some(v) ==> v <= limit,
{
    digits_read_back(n, base);
    let d = digits(n, base);
    assert(digit_value(d[0]) is Some);
    assert((seq!['+'] + d).skip(1) =~= d);
    if s.len() > 0 && parsed(s, base as int, limit) is Some {
        assert forall|i: int| 0 <= i < s.len() implies (i == 0 && s[i] == '+') || digit_value(
            #[trigger] s[i],
        ) is Some by {
            if s[0] == '+' {
                if i > 0 {
                    assert(s.skip(1)[i - 1] == s[i]);
                    assert(digit_value(s.skip(1)[i - 1]) is Some);
                }
            }
        }
    }
}

/// Text is ordered by its first difference; what is added to a text makes it larger.
pub proof fn the_first_difference_orders(
    shared: Seq<char>,
    a: Seq<char>,
    b: Seq<char>,
)
    ensures
        text_less(shared + a, shared + b) == text_less(a, b),
        b.len() > 0 ==> text_less(shared, shared + b),
        a.len() > 0 && b.len() > 0 && (a[0] as int) < (b[0] as int) ==> text_less(
            shared + a,
            shared + b,
        ),
    decreases shared.len(),
{
    if shared.len() > 0 {
        let rest = shared.skip(1);
        the_first_difference_orders(rest, a, b);
        assert((shared + a).skip(1) =~= rest + a);
        assert((shared + b).skip(1) =~= rest + b);
        assert((shared + a)[0] == shared[0] && (shared + b)[0] == shared[0]);
    } else {
        assert(shared + a =~= a);
        assert(shared + b =~= b);
    }
}

/// A number with a sign is its size, with a minus sign in front below zero.
pub proof fn signs_are_shown_below_zero(n: nat)
    requires
        n > 0,
    ensures
        signed(-(n as int)) == "-"@ + decimal(n),
        signed(n as int) == decimal(n),
        signed(0) == seq!['0'],
{
    digits_read_back(0, 10);
}

/// Zeros in front of a number do not change what it reads as.
pub proof fn zeros_in_front_do_not_count(n: nat, base: nat, width: nat, limit: int)
    requires
        2 <= base <= 16,
    ensures
        parsed(padded(n, base, width), base as int, limit) == (if n <= limit {
            Some(n as int)
        } else {
            None
        }),
        padded(n, base, width).len() > 0,
        is_number(padded(n, base, width), base as int),
{
    digits_read_back(n, base);
    let d = digits(n, base);
    let p = padded(n, base, width);
    let k = p.len() - d.len();
    let zeros = Seq::new(k as nat, |i: int| '0');
    assert(p =~= zeros + d);
    lemma_zeros(zeros, d, base as int);
    assert(p[0] != '+') by {
        if k > 0 {
            assert(p[0] == zeros[0]);
        } else {
            assert(digit_value(d[0]) is Some);
        }
    }
}

proof fn lemma_zeros(zeros: Seq<char>, d: Seq<char>, base: int)
    requires
        base >= 2,
        is_number(d, base),
        forall|i: int| 0 <= i < zeros.len() ==> #[trigger] zeros[i] == '0',
    ensures
        is_number(zeros + d, base),
        value_of(zeros + d, base) == value_of(d, base),
    decreases d.len(),
{
    let all = zeros + d;
    assert forall|i: int| 0 <= i < all.len() implies (digit_value(#[trigger] all[i]) matches Some(v)
        && v < base) by {
        if i < zeros.len() {
            assert(all[i] == zeros[i]);
        } else {
            assert(all[i] == d[i - zeros.len()]);
        }
    }
    assert(all.last() == d.last());
    assert(all.drop_last() =~= zeros + d.drop_last());
    if d.len() > 1 {
        let rest = d.drop_last();
        assert forall|i: int| 0 <= i < rest.len() implies (digit_value(#[trigger] rest[i]) matches Some(
            v,
        ) && v < base) by {
            assert(rest[i] == d[i]);
        }
        lemma_zeros(zeros, rest, base);
    } else {
        assert(d.drop_last() =~= seq![]);
        assert(all.drop_last() =~= zeros);
        lemma_all_zeros(zeros, base);
    }
}

proof fn lemma_all_zeros(zeros: Seq<char>, base: int)
    requires
        forall|i: int| 0 <= i < zeros.len() ==> #[trigger] zeros[i] == '0',
    ensures
        value_of(zeros, base) == 0,
    decreases zeros.len(),
{
    if zeros.len() > 0 {
        let rest = zeros.drop_last();
        assert forall|i: int| 0 <= i < rest.len() implies #[trigger] rest[i] == '0' by {
            assert(rest[i] == zeros[i]);
        }
        lemma_all_zeros(rest, base);
        assert(zeros[zeros.len() - 1] == '0');
        assert(0 * base == 0) by (nonlinear_arith);
    }
}

/// Written digits hold no white space, no separator and no sign.
pub proof fn digits_hold_no_separator(s: Seq<char>, base: int)
    requires
        is_number(s, base),
    ensures
        free_of(s, CharClass::White),
        free_of(s, CharClass::AsciiWhite),
        free_of(s, CharClass::Is(':')),
        free_of(s, CharClass::Is('-')),
        trimmed(s, CharClass::White) == s,
{
    assert forall|i: int| 0 <= i < s.len() implies {
        &&& !in_class(#[trigger] s[i], CharClass::White)
        &&& !in_class(s[i], CharClass::AsciiWhite)
        &&& !in_class(s[i], CharClass::Is(':'))
        &&& !in_class(s[i], CharClass::Is('-'))
    } by {
        assert(digit_value(s[i]) is Some);
    }
    let nothing = Seq::<char>::empty();
    assert(nothing + s + nothing =~= s);
    assert(s.last() == s[s.len() - 1]);
    trimming_takes_off_both_ends_alone(nothing, s, nothing, CharClass::White);
}

} // verus!
