//! Unix paths as text.

use crate::text;
use crate::text::CharClass;
use vstd::prelude::*;

verus! {

/// A path below another one: an absolute path replaces the base, and a single slash stands between
/// the two otherwise.
pub open spec fn path_joined(base: Seq<char>, rest: Seq<char>) -> Seq<char> {
    if rest.len() > 0 && rest[0] == '/' {
        rest
    } else if base.len() == 0 || base.last() == '/' {
        base + rest
    } else {
        base + "/"@ + rest
    }
}

pub fn join(base: &str, rest: &str) -> (r: String)
    ensures
        r@ == path_joined(base@, rest@),
{
    let b: usize = base.unicode_len();
    let n: usize = rest.unicode_len();
    if n > 0 && rest.get_char(0) == '/' {
        rest.to_owned()
    } else if b == 0 || base.get_char(b - 1) == '/' {
        crate::text::cat2(base, rest)
    } else {
        crate::text::cat3(base, "/", rest)
    }
}

/// One component of a path as numbers: what kind it is, its characters, and an end mark below every
/// character. Empty components do not count, nor does `.` but at the front of a relative path.
pub open spec fn component_key(piece: Seq<char>, front: bool) -> Seq<u32> {
    if piece.len() == 0 {
        seq![]
    } else if piece == "."@ {
        if front {
            seq![2u32, 0u32]
        } else {
            seq![]
        }
    } else if piece == ".."@ {
        seq![3u32, 0u32]
    } else {
        seq![4u32] + Seq::new(piece.len(), |i: int| (piece[i] as u32 + 10) as u32) + seq![0u32]
    }
}

/// The components of a path as numbers, one after another.
pub open spec fn components_key(pieces: Seq<Seq<char>>, relative: bool) -> Seq<u32>
    decreases pieces.len(),
{
    if pieces.len() == 0 {
        seq![]
    } else {
        components_key(pieces.drop_last(), relative) + component_key(
            pieces.last(),
            relative && pieces.len() == 1,
        )
    }
}

/// What a path is ordered by: its components, the root first.
#[verifier::opaque]
pub open spec fn path_key(path: Seq<char>) -> Seq<u32> {
    let relative = !(path.len() > 0 && path[0] == '/');
    (if relative {
        seq![]
    } else {
        seq![1u32, 0u32]
    }) + components_key(text::pieces(path, CharClass::Is('/')), relative)
}

/// Dictionary order.
#[verifier::opaque]
pub open spec fn key_less(a: Seq<u32>, b: Seq<u32>) -> bool
    decreases a.len(),
{
    if b.len() == 0 {
        false
    } else if a.len() == 0 {
        true
    } else if a[0] == b[0] {
        key_less(a.skip(1), b.skip(1))
    } else {
        a[0] < b[0]
    }
}

pub proof fn key_order_is_total(a: Seq<u32>, b: Seq<u32>)
    ensures
        key_less(a, b) || key_less(b, a) || a == b,
        !(key_less(a, b) && key_less(b, a)),
        !key_less(a, a),
    decreases a.len(),
{
    reveal_with_fuel(key_less, 2);
    if a.len() > 0 && b.len() > 0 && a[0] == b[0] {
        key_order_is_total(a.skip(1), b.skip(1));
        if a.skip(1) == b.skip(1) {
            assert(a =~= seq![a[0]] + a.skip(1));
            assert(b =~= seq![b[0]] + b.skip(1));
        }
    }
    if a.len() == 0 && b.len() == 0 {
        assert(a =~= b);
    }
    if a.len() > 0 {
        key_order_is_irreflexive(a);
    }
}

proof fn key_order_is_irreflexive(a: Seq<u32>)
    ensures
        !key_less(a, a),
    decreases a.len(),
{
    reveal_with_fuel(key_less, 2);
    if a.len() > 0 {
        key_order_is_irreflexive(a.skip(1));
    }
}

pub proof fn key_order_is_transitive(a: Seq<u32>, b: Seq<u32>, c: Seq<u32>)
    requires
        key_less(a, b),
        key_less(b, c),
    ensures
        key_less(a, c),
    decreases a.len(),
{
    reveal_with_fuel(key_less, 2);
    if a.len() > 0 && b.len() > 0 && c.len() > 0 && a[0] == b[0] && b[0] == c[0] {
        key_order_is_transitive(a.skip(1), b.skip(1), c.skip(1));
    }
}

fn key_before(a: &Vec<u32>, b: &Vec<u32>) -> (r: bool)
    ensures
        r == key_less(a@, b@),
{
    let mut i: usize = 0;
    proof {
        reveal_with_fuel(key_less, 2);
        assert(a@.skip(0) =~= a@);
        assert(b@.skip(0) =~= b@);
    }
    while i < a.len() && i < b.len() && a[i] == b[i]
        invariant
            i <= a@.len(),
            i <= b@.len(),
            key_less(a@, b@) == key_less(a@.skip(i as int), b@.skip(i as int)),
        decreases a@.len() - i,
    {
        proof {
            reveal_with_fuel(key_less, 2);
            assert(a@.skip(i as int).skip(1) =~= a@.skip(i as int + 1));
            assert(b@.skip(i as int).skip(1) =~= b@.skip(i as int + 1));
        }
        i = i + 1;
    }
    if i >= b.len() {
        false
    } else if i >= a.len() {
        true
    } else {
        a[i] < b[i]
    }
}

fn push_component(key: &mut Vec<u32>, piece: &[char], front: bool)
    ensures
        final(key)@ == old(key)@ + component_key(piece@, front),
{
    if piece.len() == 0 {
        proof {
            assert(key@ =~= old(key)@ + component_key(piece@, front));
        }
        return;
    }
    if text::is_text(piece, ".") {
        if front {
            key.push(2u32);
            key.push(0u32);
        }
        proof {
            assert(key@ =~= old(key)@ + component_key(piece@, front));
        }
        return;
    }
    if text::is_text(piece, "..") {
        key.push(3u32);
        key.push(0u32);
        proof {
            assert(key@ =~= old(key)@ + component_key(piece@, front));
        }
        return;
    }
    key.push(4u32);
    for i in 0..piece.len()
        invariant
            key@ == old(key)@ + seq![4u32] + Seq::new(
                i as nat,
                |j: int| (piece@[j] as u32 + 10) as u32,
            ),
    {
        let c: char = piece[i];
        proof {
            vstd::utf8::char_is_scalar(c);
        }
        let code: u32 = c as u32 + 10;
        key.push(code);
        proof {
            assert(key@ =~= old(key)@ + seq![4u32] + Seq::new(
                (i + 1) as nat,
                |j: int| (piece@[j] as u32 + 10) as u32,
            ));
        }
    }
    key.push(0u32);
    proof {
        assert(key@ =~= old(key)@ + component_key(piece@, front));
    }
}

fn key_of(path: &str) -> (r: Vec<u32>)
    ensures
        r@ == path_key(path@),
{
    let chars = text::chars(path);
    let relative = !(chars.len() > 0 && chars[0] == '/');
    let pieces = text::split(chars.as_slice(), CharClass::Is('/'));
    let ghost all = text::pieces(path@, CharClass::Is('/'));
    let mut key: Vec<u32> = Vec::new();
    proof {
        reveal(path_key);
    }
    if !relative {
        key.push(1u32);
        key.push(0u32);
    }
    let ghost root = key@;
    proof {
        assert(root + components_key(all.take(0), relative) =~= root);
    }
    for i in 0..pieces.len()
        invariant
            text::views(pieces@) == all,
            key@ == root + components_key(all.take(i as int), relative),
    {
        proof {
            assert(all[i as int] == pieces@[i as int]@);
            text::lemma_take_push(all, i as int);
        }
        push_component(&mut key, pieces[i], relative && i == 0);
        proof {
            let done = components_key(all.take(i as int), relative);
            let next = component_key(all[i as int], relative && i == 0);
            assert((root + done) + next =~= root + (done + next));
        }
    }
    proof {
        assert(all.take(pieces@.len() as int) =~= all);
        assert(root =~= (if relative {
            seq![]
        } else {
            seq![1u32, 0u32]
        }));
    }
    key
}

/// The paths stand in ascending order, none of them twice.
pub open spec fn ascending(paths: Seq<Seq<char>>) -> bool {
    forall|i: int, j: int|
        0 <= i < j < paths.len() ==> key_less(path_key(#[trigger] paths[i]), path_key(#[trigger] paths[j]))
}

/// Each of the first `n` given paths is among the sorted ones.
#[verifier::opaque]
pub open spec fn holds_all(sorted: Seq<Seq<char>>, given: Seq<Seq<char>>, n: int) -> bool {
    forall|k: int| 0 <= k < n ==> holds_path(sorted, #[trigger] given[k])
}

pub open spec fn holds_path(sorted: Seq<Seq<char>>, path: Seq<char>) -> bool {
    exists|i: int| 0 <= i < sorted.len() && path_key(#[trigger] sorted[i]) == path_key(path)
}

/// Each of the sorted paths is spelled as the first of its kind among the given ones.
#[verifier::opaque]
pub open spec fn holds_only(sorted: Seq<Seq<char>>, given: Seq<Seq<char>>, n: int) -> bool {
    forall|i: int| 0 <= i < sorted.len() ==> named_first(given, n, #[trigger] sorted[i])
}

pub open spec fn named_first(given: Seq<Seq<char>>, n: int, path: Seq<char>) -> bool {
    exists|k: int| first_of_its_kind(given, n, k, path)
}

pub open spec fn first_of_its_kind(
    given: Seq<Seq<char>>,
    n: int,
    k: int,
    path: Seq<char>,
) -> bool {
    0 <= k < n && given[k] == path && forall|m: int|
        0 <= m < k ==> path_key(#[trigger] given[m]) != path_key(path)
}

/// `sorted` holds the first `n` given paths in ascending order, each once, as it was spelled first.
pub open spec fn sorts(sorted: Seq<Seq<char>>, given: Seq<Seq<char>>, n: int) -> bool {
    ascending(sorted) && holds_all(sorted, given, n) && holds_only(sorted, given, n)
}

proof fn lemma_insert_ascending(sorted: Seq<Seq<char>>, path: Seq<char>, at: int)
    requires
        0 <= at <= sorted.len(),
        ascending(sorted),
        forall|i: int| 0 <= i < at ==> key_less(path_key(#[trigger] sorted[i]), path_key(path)),
        at < sorted.len() ==> key_less(path_key(path), path_key(sorted[at])),
    ensures
        ascending(sorted.insert(at, path)),
        forall|i: int|
            at <= i < sorted.len() ==> key_less(path_key(path), path_key(#[trigger] sorted[i])),
{
    let next = sorted.insert(at, path);
    let key = path_key(path);
    assert forall|i: int| at <= i < sorted.len() implies key_less(
        key,
        path_key(#[trigger] sorted[i]),
    ) by {
        if i > at {
            key_order_is_transitive(key, path_key(sorted[at]), path_key(sorted[i]));
        }
    }
    assert forall|i: int, j: int| 0 <= i < j < next.len() implies key_less(
        path_key(#[trigger] next[i]),
        path_key(#[trigger] next[j]),
    ) by {
        if i != at {
            assert(next[i] == sorted[if i < at {
                i
            } else {
                i - 1
            }]);
        }
        if j != at {
            assert(next[j] == sorted[if j < at {
                j
            } else {
                j - 1
            }]);
        }
    }
}

proof fn lemma_insert_holds(
    sorted: Seq<Seq<char>>,
    given: Seq<Seq<char>>,
    n: int,
    at: int,
)
    requires
        0 <= n < given.len(),
        0 <= at <= sorted.len(),
        holds_all(sorted, given, n),
    ensures
        holds_all(sorted.insert(at, given[n]), given, n + 1),
{
    reveal(holds_all);
    let next = sorted.insert(at, given[n]);
    assert forall|k: int| 0 <= k < n + 1 implies holds_path(next, #[trigger] given[k]) by {
        if k == n {
            assert(next[at] == given[n]);
        } else {
            assert(holds_path(sorted, given[k]));
            let i = choose|i: int|
                0 <= i < sorted.len() && path_key(#[trigger] sorted[i]) == path_key(given[k]);
            assert(next[if i < at {
                i
            } else {
                i + 1
            }] == sorted[i]);
        }
    }
}

proof fn lemma_insert_only(
    sorted: Seq<Seq<char>>,
    given: Seq<Seq<char>>,
    n: int,
    at: int,
)
    requires
        0 <= n < given.len(),
        0 <= at <= sorted.len(),
        holds_all(sorted, given, n),
        holds_only(sorted, given, n),
        forall|i: int|
            0 <= i < sorted.len() ==> path_key(#[trigger] sorted[i]) != path_key(given[n]),
    ensures
        holds_only(sorted.insert(at, given[n]), given, n + 1),
{
    let next = sorted.insert(at, given[n]);
    assert(holds_only(next, given, n + 1)) by {
        reveal(holds_only);
        assert forall|i: int| 0 <= i < next.len() implies named_first(
            given,
            n + 1,
            #[trigger] next[i],
        ) by {
            if i == at {
                assert forall|m: int| 0 <= m < n implies path_key(#[trigger] given[m]) != path_key(
                    given[n],
                ) by {
                    reveal(holds_all);
                    assert(holds_path(sorted, given[m]));
                }
                assert(first_of_its_kind(given, n + 1, n, next[i]));
            } else {
                let j = if i < at {
                    i
                } else {
                    i - 1
                };
                assert(next[i] == sorted[j]);
                assert(named_first(given, n, sorted[j]));
                let k = choose|k: int| first_of_its_kind(given, n, k, sorted[j]);
                assert(first_of_its_kind(given, n + 1, k, next[i]));
            }
        }
    }
}

proof fn lemma_insert_keeps(
    sorted: Seq<Seq<char>>,
    given: Seq<Seq<char>>,
    n: int,
    at: int,
)
    requires
        0 <= n < given.len(),
        0 <= at <= sorted.len(),
        sorts(sorted, given, n),
        forall|i: int|
            0 <= i < at ==> key_less(path_key(#[trigger] sorted[i]), path_key(given[n])),
        at < sorted.len() ==> key_less(path_key(given[n]), path_key(sorted[at])),
    ensures
        sorts(sorted.insert(at, given[n]), given, n + 1),
{
    lemma_insert_ascending(sorted, given[n], at);
    lemma_insert_holds(sorted, given, n, at);
    assert forall|i: int| 0 <= i < sorted.len() implies path_key(#[trigger] sorted[i]) != path_key(
        given[n],
    ) by {
        key_order_is_total(path_key(sorted[i]), path_key(given[n]));
        if i < at {
            assert(key_less(path_key(sorted[i]), path_key(given[n])));
        }
    }
    lemma_insert_only(sorted, given, n, at);
}

proof fn lemma_skip_keeps(sorted: Seq<Seq<char>>, given: Seq<Seq<char>>, n: int, at: int)
    requires
        0 <= n < given.len(),
        0 <= at < sorted.len(),
        sorts(sorted, given, n),
        path_key(sorted[at]) == path_key(given[n]),
    ensures
        sorts(sorted, given, n + 1),
{
    assert(holds_all(sorted, given, n + 1)) by {
        reveal(holds_all);
        assert(holds_path(sorted, given[n]));
    }
    assert(holds_only(sorted, given, n + 1)) by {
        reveal(holds_only);
        assert forall|i: int| 0 <= i < sorted.len() implies named_first(
            given,
            n + 1,
            #[trigger] sorted[i],
        ) by {
            assert(named_first(given, n, sorted[i]));
            let k = choose|k: int| first_of_its_kind(given, n, k, sorted[i]);
            assert(first_of_its_kind(given, n + 1, k, sorted[i]));
        }
    }
}

/// The paths in ascending order, each once. Paths are compared by their components, so two
/// spellings of one path count as the same; the first is kept.
pub fn sorted_paths(given: &Vec<String>) -> (r: Vec<String>)
    ensures
        sorts(text::texts(r@), text::texts(given@), given@.len() as int),
{
    let mut r: Vec<String> = Vec::new();
    let ghost all = text::texts(given@);
    proof {
        reveal(holds_all);
        reveal(holds_only);
    }
    for n in 0..given.len()
        invariant
            all == text::texts(given@),
            sorts(text::texts(r@), all, n as int),
    {
        let path = given[n].clone();
        let key = key_of(path.as_str());
        let ghost sorted = text::texts(r@);
        let mut at: usize = 0;
        let mut here = key_of(path.as_str());
        while at < r.len()
            invariant_except_break
                at <= r@.len(),
            invariant
                sorted == text::texts(r@),
                key@ == path_key(path@),
                at <= r@.len(),
                forall|i: int| 0 <= i < at ==> key_less(path_key(#[trigger] sorted[i]), key@),
            ensures
                at < r@.len() ==> !key_less(path_key(sorted[at as int]), key@) && here@ == path_key(
                    sorted[at as int],
                ),
            decreases r@.len() - at,
        {
            here = key_of(r[at].as_str());
            proof {
                assert(sorted[at as int] == r@[at as int]@);
            }
            if !key_before(&here, &key) {
                break;
            }
            at = at + 1;
        }
        proof {
            assert(all[n as int] == path@);
        }
        if at < r.len() && !key_before(&key, &here) {
            proof {
                key_order_is_total(path_key(sorted[at as int]), key@);
                lemma_skip_keeps(sorted, all, n as int, at as int);
            }
        } else {
            proof {
                lemma_insert_keeps(sorted, all, n as int, at as int);
            }
            r.insert(at, path);
            proof {
                assert(text::texts(r@) =~= sorted.insert(at as int, path@));
            }
        }
    }
    r
}

/// A path below another begins with that one and ends with its own, with one slash between, whether or
/// not the base brings it; an absolute path stands for itself.
pub proof fn a_joined_path_lies_below_its_base(base: Seq<char>, rest: Seq<char>)
    ensures
        rest.len() > 0 && rest[0] == '/' ==> path_joined(base, rest) == rest,
        rest.len() == 0 || rest[0] != '/' ==> {
            &&& text::starts(path_joined(base, rest), base)
            &&& text::ends(path_joined(base, rest), rest)
            &&& base.len() == 0 ==> path_joined(base, rest) == rest
            &&& base.len() > 0 && base.last() != '/' ==> path_joined(base, rest) == base.push('/')
                + rest
            &&& base.len() > 0 && base.last() == '/' ==> path_joined(base, rest) == base + rest
        },
{
    reveal_strlit("/");
    let all = path_joined(base, rest);
    assert("/"@ =~= seq!['/']);
    if rest.len() == 0 || rest[0] != '/' {
        assert(all.take(base.len() as int) =~= base);
        assert(all.skip(all.len() - rest.len()) =~= rest);
        if base.len() == 0 {
            assert(all =~= rest);
        } else if base.last() != '/' {
            assert(all =~= base.push('/') + rest);
        }
    }
}

proof fn lemma_components_split(left: Seq<Seq<char>>, right: Seq<Seq<char>>, relative: bool)
    requires
        left.len() > 0,
    ensures
        components_key(left + right, relative) == components_key(left, relative) + components_key(
            right,
            false,
        ),
    decreases right.len(),
{
    let all = left + right;
    if right.len() == 0 {
        assert(all =~= left);
        assert(components_key(left, relative) + components_key(right, false) =~= components_key(
            left,
            relative,
        ));
    } else {
        lemma_components_split(left, right.drop_last(), relative);
        assert(all.drop_last() =~= left + right.drop_last());
        assert(all.last() == right.last());
        assert(components_key(all, relative) =~= components_key(left, relative) + components_key(
            right,
            false,
        ));
    }
}

proof fn lemma_pieces_split(left: Seq<char>, right: Seq<char>)
    ensures
        text::pieces(left.push('/') + right, CharClass::Is('/')) == text::pieces(
            left,
            CharClass::Is('/'),
        ) + text::pieces(right, CharClass::Is('/')),
        text::pieces(left, CharClass::Is('/')).len() > 0,
    decreases left.len(),
{
    let class = CharClass::Is('/');
    text::first_in_is_first(left, class);
    let i = text::first_in(left, class);
    if i < left.len() {
        let front = left.take(i);
        let rest = left.skip(i + 1);
        lemma_pieces_split(rest, right);
        assert forall|j: int| 0 <= j < front.len() implies !text::in_class(
            #[trigger] front[j],
            class,
        ) by {
            assert(front[j] == left[j]);
        }
        assert(left =~= front.push('/') + rest);
        text::text_is_cut_at_the_first_of_a_class(front, '/', rest, class);
        text::text_is_cut_at_the_first_of_a_class(front, '/', rest.push('/') + right, class);
        assert(left.push('/') + right =~= front.push('/') + (rest.push('/') + right));
        assert(seq![front] + (text::pieces(rest, class) + text::pieces(right, class)) =~= (
        seq![front] + text::pieces(rest, class)) + text::pieces(right, class));
    } else {
        assert(text::free_of(left, class));
        text::text_is_cut_at_the_first_of_a_class(left, '/', right, class);
    }
}

/// Two spellings of one path count as the same: a slash more between two components, a dot alone
/// between them, or a slash at the end make no other path.
pub proof fn spellings_of_a_path_are_one_path(left: Seq<char>, right: Seq<char>)
    requires
        left.len() > 0,
    ensures
        path_key(left.push('/').push('/') + right) == path_key(left.push('/') + right),
        path_key(left.push('/').push('.').push('/') + right) == path_key(left.push('/') + right),
        path_key(left.push('/')) == path_key(left),
{
    reveal(path_key);
    reveal_strlit(".");
    let class = CharClass::Is('/');
    let nothing = Seq::<char>::empty();
    let dot = seq!['.'];
    let relative = left[0] != '/';
    lemma_pieces_split(left, right);
    lemma_pieces_split(left, nothing);
    lemma_pieces_split(nothing, right);
    text::text_is_cut_at_the_first_of_a_class(nothing, '/', nothing, class);
    text::text_is_cut_at_the_first_of_a_class(dot, '/', nothing, class);
    let l = text::pieces(left, class);
    let r = text::pieces(right, class);
    // One slash.
    let one = left.push('/') + right;
    assert(one[0] == left[0]);
    lemma_components_split(l, r, relative);
    // Two slashes.
    let two = left.push('/').push('/') + right;
    assert(two[0] == left[0]);
    let tail = nothing.push('/') + right;
    assert(two =~= left.push('/') + tail);
    lemma_pieces_split(left, tail);
    lemma_components_split(l, seq![nothing] + r, relative);
    lemma_components_split(seq![nothing], r, false);
    lemma_alone(nothing);
    assert(components_key(seq![nothing], false) =~= seq![]);
    assert(components_key(seq![nothing] + r, false) =~= components_key(r, false));
    // A dot between.
    let dotted = left.push('/').push('.').push('/') + right;
    assert(dotted[0] == left[0]);
    let after = dot.push('/') + right;
    assert(dotted =~= left.push('/') + after);
    lemma_pieces_split(left, after);
    lemma_pieces_split(dot, right);
    assert(dot =~= "."@);
    lemma_components_split(l, seq![dot] + r, relative);
    lemma_components_split(seq![dot], r, false);
    lemma_alone(dot);
    assert(components_key(seq![dot], false) =~= seq![]);
    assert(components_key(seq![dot] + r, false) =~= components_key(r, false));
    // A slash at the end.
    let closed = left.push('/');
    assert(closed[0] == left[0]);
    assert(closed =~= left.push('/') + nothing);
    lemma_components_split(l, seq![nothing], relative);
    assert(components_key(l, relative) + seq![] =~= components_key(l, relative));
}

proof fn lemma_alone(piece: Seq<char>)
    ensures
        components_key(seq![piece], false) == component_key(piece, false),
{
    assert(seq![piece].drop_last() =~= seq![]);
    assert(components_key(seq![piece].drop_last(), false) =~= seq![]);
    assert(components_key(seq![piece], false) =~= component_key(piece, false));
}

/// Keys are ordered by their first difference; a key comes before what is longer than it.
pub proof fn the_first_difference_orders_keys(shared: Seq<u32>, a: Seq<u32>, b: Seq<u32>)
    ensures
        key_less(shared + a, shared + b) == key_less(a, b),
        b.len() > 0 ==> key_less(shared, shared + b),
        a.len() > 0 && b.len() > 0 && a[0] < b[0] ==> key_less(shared + a, shared + b),
    decreases shared.len(),
{
    reveal_with_fuel(key_less, 2);
    if shared.len() > 0 {
        let rest = shared.skip(1);
        the_first_difference_orders_keys(rest, a, b);
        assert((shared + a).skip(1) =~= rest + a);
        assert((shared + b).skip(1) =~= rest + b);
        assert((shared + a)[0] == shared[0] && (shared + b)[0] == shared[0]);
    } else {
        assert(shared + a =~= a);
        assert(shared + b =~= b);
    }
}

proof fn lemma_code_point(c: char)
    ensures
        c as u32 == c as int,
        c as int <= 0x10ffff,
{
    assert(c as u32 <= 0x10ffff);
}

proof fn lemma_code(piece: Seq<char>, i: int)
    requires
        0 <= i < piece.len(),
        piece != "."@,
        piece != ".."@,
    ensures
        component_key(piece, false)[0] == 4,
        component_key(piece, false)[i + 1] == piece[i] as int + 10,
        component_key(piece, false).len() == piece.len() + 2,
{
    lemma_code_point(piece[i]);
    assert(component_key(piece, false)[i + 1] == (piece[i] as u32 + 10) as u32);
}

/// Two names are ordered as their characters are, and are the same only where they are spelled the same.
pub proof fn names_are_ordered_by_their_characters(a: Seq<char>, b: Seq<char>)
    requires
        a.len() > 0,
        b.len() > 0,
        a != "."@ && a != ".."@ && b != "."@ && b != ".."@,
    ensures
        component_key(a, false) == component_key(b, false) ==> a == b,
        a[0] < b[0] ==> key_less(component_key(a, false), component_key(b, false)),
{
    let ka = component_key(a, false);
    let kb = component_key(b, false);
    lemma_code(a, 0);
    lemma_code(b, 0);
    if ka == kb {
        assert forall|i: int| 0 <= i < a.len() implies a[i] == b[i] by {
            lemma_code(a, i);
            lemma_code(b, i);
        }
        assert(a =~= b);
    }
    if a[0] < b[0] {
        let shared = seq![4u32];
        assert(ka =~= shared + ka.skip(1));
        assert(kb =~= shared + kb.skip(1));
        assert(ka.skip(1)[0] == ka[1] && kb.skip(1)[0] == kb[1]);
        the_first_difference_orders_keys(shared, ka.skip(1), kb.skip(1));
    }
}

/// The sorted paths hold every given one in some spelling, and nothing that was not given.
pub proof fn sorted_paths_are_the_given_ones(sorted: Seq<Seq<char>>, given: Seq<Seq<char>>, k: int)
    requires
        sorts(sorted, given, given.len() as int),
        0 <= k < given.len(),
    ensures
        exists|i: int| 0 <= i < sorted.len() && path_key(#[trigger] sorted[i]) == path_key(given[k]),
        forall|i: int| 0 <= i < sorted.len() ==> given.contains(#[trigger] sorted[i]),
        forall|i: int, j: int|
            0 <= i < j < sorted.len() ==> path_key(#[trigger] sorted[i]) != path_key(
                #[trigger] sorted[j],
            ),
{
    reveal(holds_all);
    reveal(holds_only);
    assert(holds_path(sorted, given[k]));
    assert forall|i: int| 0 <= i < sorted.len() implies given.contains(#[trigger] sorted[i]) by {
        assert(named_first(given, given.len() as int, sorted[i]));
        let m = choose|m: int| first_of_its_kind(given, given.len() as int, m, sorted[i]);
        assert(given[m] == sorted[i]);
    }
    assert forall|i: int, j: int| 0 <= i < j < sorted.len() implies path_key(#[trigger] sorted[i])
        != path_key(#[trigger] sorted[j]) by {
        key_order_is_total(path_key(sorted[i]), path_key(sorted[j]));
    }
}

} // verus!
