//! Decisions over allowlisted identity evidence: lexical absolute locations and the
//! one project bucket that every working directory agrees on. No filesystem access.
use crate::adapter::byte_len;
use crate::settings::{absolute_text, is_absolute_path};
use crate::text::{chars_of, push_char, push_str, str_eq, strip_prefix, views};
use vstd::prelude::*;

verus! {

pub const MAX_LOCATION_CANDIDATES: usize = 128;

pub const MAX_PATH_BYTES: usize = 4096;

/// A project location, or the reason none was chosen.
#[derive(Debug, PartialEq, Eq)]
pub struct Location {
    pub path: Option<String>,
    pub state: &'static str,
}

/// The pieces of a text between slashes, in order (always at least one).
pub open spec fn split_slash(text: Seq<char>) -> Seq<Seq<char>>
    decreases text.len(),
{
    if text.len() == 0 {
        seq![Seq::empty()]
    } else {
        let rest = split_slash(text.drop_last());
        if text.last() == '/' {
            rest.push(Seq::empty())
        } else {
            rest.update(rest.len() - 1, rest.last().push(text.last()))
        }
    }
}

/// A piece that names a component: neither empty nor `.`.
pub open spec fn named(piece: Seq<char>) -> bool {
    piece.len() > 0 && piece != seq!['.']
}

/// The components of a path text: its pieces between slashes, without empty and
/// `.` pieces.
pub open spec fn components_of(text: Seq<char>) -> Seq<Seq<char>> {
    split_slash(text).filter(|piece: Seq<char>| named(piece))
}

/// The components of a lexical absolute location: a non-empty absolute text of at
/// most 4096 bytes without NUL and without `..` components.
pub open spec fn absolute_of(value: Seq<char>) -> Option<Seq<Seq<char>>> {
    if value.len() == 0 || byte_len(value) > MAX_PATH_BYTES || value.contains('\0')
        || value[0] != '/' || components_of(value).contains(seq!['.', '.']) {
        None
    } else {
        Some(components_of(value))
    }
}

/// Components joined after a root slash.
pub open spec fn joined(parts: Seq<Seq<char>>) -> Seq<char>
    decreases parts.len(),
{
    if parts.len() == 0 {
        Seq::empty()
    } else {
        joined(parts.drop_last()) + seq!['/'] + parts.last()
    }
}

/// The text of an absolute location: `/` alone, or each component after a slash.
pub open spec fn path_text(parts: Seq<Seq<char>>) -> Seq<char> {
    if parts.len() == 0 {
        seq!['/']
    } else {
        joined(parts)
    }
}

fn is_named(piece: &String) -> (result: bool)
    ensures
        result == named(piece@),
{
    let n = piece.as_str().unicode_len();
    if n == 0 {
        return false;
    }
    proof {
        reveal_strlit(".");
        assert("."@ =~= seq!['.']);
    }
    let dot = str_eq(piece.as_str(), ".");
    assert(dot == (piece@ == seq!['.']));
    !dot
}

/// The components of a path text.
pub fn components(text: &str) -> (result: Vec<String>)
    ensures
        views(result@) == components_of(text@),
{
    let chars = chars_of(text);
    let mut parts: Vec<String> = Vec::new();
    let mut piece = String::new();
    let mut i: usize = 0;
    proof {
        reveal(Seq::filter);
    }
    while i < chars.len()
        invariant
            i <= chars@.len(),
            chars@ == text@,
            split_slash(text@.take(i as int)).len() >= 1,
            views(parts@) == split_slash(text@.take(i as int)).drop_last().filter(
                |p: Seq<char>| named(p),
            ),
            piece@ == split_slash(text@.take(i as int)).last(),
        decreases chars@.len() - i,
    {
        let c = chars[i];
        let ghost before = split_slash(text@.take(i as int));
        assert(text@.take(i + 1).drop_last() =~= text@.take(i as int));
        if c == '/' {
            let keep = is_named(&piece);
            let ghost kept = views(parts@);
            if keep {
                parts.push(piece);
                assert(views(parts@) =~= kept.push(before.last()));
            }
            piece = String::new();
            proof {
                reveal(Seq::filter);
                let after = split_slash(text@.take(i + 1));
                assert(after =~= before.push(Seq::empty()));
                assert(after.drop_last() =~= before);
                assert(before.drop_last() =~= before.take(before.len() - 1));
                assert(before.filter(|p: Seq<char>| named(p)) == if named(before.last()) {
                    before.drop_last().filter(|p: Seq<char>| named(p)).push(before.last())
                } else {
                    before.drop_last().filter(|p: Seq<char>| named(p))
                });
            }
        } else {
            push_char(&mut piece, c);
            proof {
                let after = split_slash(text@.take(i + 1));
                assert(after.drop_last() =~= before.drop_last());
            }
        }
        i = i + 1;
    }
    let ghost all = split_slash(text@);
    assert(text@.take(chars@.len() as int) =~= text@);
    if is_named(&piece) {
        let ghost kept = views(parts@);
        parts.push(piece);
        assert(views(parts@) =~= kept.push(all.last()));
    }
    proof {
        reveal(Seq::filter);
        assert(all.filter(|p: Seq<char>| named(p)) == if named(all.last()) {
            all.drop_last().filter(|p: Seq<char>| named(p)).push(all.last())
        } else {
            all.drop_last().filter(|p: Seq<char>| named(p))
        });
    }
    parts
}

/// Whether every value is a lexical absolute location.
pub open spec fn all_absolute(values: Seq<String>) -> bool {
    forall|i: int| 0 <= i < values.len() ==> (#[trigger] absolute_of(values[i]@)) is Some
}

/// The components of the location at a position.
pub open spec fn parts_at(values: Seq<String>, i: int) -> Seq<Seq<char>> {
    absolute_of(values[i]@)->0
}

/// Whether every location equals the first one.
pub open spec fn all_same(values: Seq<String>) -> bool {
    forall|i: int| 0 <= i < values.len() ==> #[trigger] parts_at(values, i) == parts_at(values, 0)
}

/// Whether root `k` contains every working directory and is the only root that
/// contains any of them.
pub open spec fn sole_root(cwds: Seq<String>, roots: Seq<String>, k: int) -> bool {
    &&& 0 <= k < roots.len()
    &&& forall|i: int|
        0 <= i < cwds.len() ==> {
            &&& parts_at(roots, k).is_prefix_of(#[trigger] parts_at(cwds, i))
            &&& forall|j: int|
                0 <= j < roots.len() && (#[trigger] parts_at(roots, j)).is_prefix_of(
                    parts_at(cwds, i),
                ) ==> parts_at(roots, j) == parts_at(roots, k)
        }
}

/// The chosen location text and its state.
pub open spec fn location_of(cwds: Seq<String>, roots: Seq<String>) -> (Option<Seq<char>>, Seq<char>) {
    if cwds.len() + roots.len() > MAX_LOCATION_CANDIDATES {
        (None, "limit"@)
    } else if !all_absolute(cwds) || !all_absolute(roots) {
        (None, "ambiguous"@)
    } else if roots.len() == 0 {
        if cwds.len() == 0 {
            (None, "unavailable"@)
        } else if all_same(cwds) {
            (Some(path_text(parts_at(cwds, 0))), "available"@)
        } else {
            (None, "ambiguous"@)
        }
    } else if cwds.len() == 0 {
        if all_same(roots) {
            (Some(path_text(parts_at(roots, 0))), "available"@)
        } else {
            (None, "ambiguous"@)
        }
    } else if exists|k: int| sole_root(cwds, roots, k) {
        (Some(path_text(parts_at(roots, choose|k: int| sole_root(cwds, roots, k)))), "available"@)
    } else {
        (None, "ambiguous"@)
    }
}

fn has_nul(value: &str) -> (result: bool)
    ensures
        result == value@.contains('\0'),
{
    let chars = chars_of(value);
    let mut i: usize = 0;
    while i < chars.len()
        invariant
            i <= chars@.len(),
            chars@ == value@,
            forall|k: int| 0 <= k < i ==> value@[k] != '\0',
        decreases chars@.len() - i,
    {
        if chars[i] == '\0' {
            assert(value@[i as int] == '\0');
            return true;
        }
        i = i + 1;
    }
    false
}

/// The components of a lexical absolute location, or `None` for empty, oversized,
/// relative or NUL-holding text and for any `..` component (resolving it could
/// cross a filesystem link).
pub fn absolute_location(value: &str) -> (result: Option<Vec<String>>)
    ensures
        match result {
            Some(parts) => absolute_of(value@) == Some(views(parts@)),
            None => absolute_of(value@) is None,
        },
{
    if value.unicode_len() == 0 || value.len() > MAX_PATH_BYTES || has_nul(value) {
        return None;
    }
    if value.get_char(0) != '/' {
        return None;
    }
    let parts = components(value);
    let mut i: usize = 0;
    proof {
        reveal_strlit("..");
        assert(".."@ =~= seq!['.', '.']);
    }
    while i < parts.len()
        invariant
            i <= parts@.len(),
            views(parts@) == components_of(value@),
            ".."@ == seq!['.', '.'],
            forall|k: int| 0 <= k < i ==> views(parts@)[k] != seq!['.', '.'],
        decreases parts@.len() - i,
    {
        if str_eq(parts[i].as_str(), "..") {
            assert(views(parts@)[i as int] == seq!['.', '.']);
            return None;
        }
        i = i + 1;
    }
    assert(!components_of(value@).contains(seq!['.', '.']));
    Some(parts)
}

/// The text of an absolute location.
pub fn location_text(parts: &Vec<String>) -> (result: String)
    ensures
        result@ == path_text(views(parts@)),
{
    if parts.len() == 0 {
        let mut root = String::new();
        push_char(&mut root, '/');
        return root;
    }
    let mut text = String::new();
    let mut i: usize = 0;
    while i < parts.len()
        invariant
            i <= parts@.len(),
            text@ == joined(views(parts@).take(i as int)),
        decreases parts@.len() - i,
    {
        push_char(&mut text, '/');
        push_str(&mut text, parts[i].as_str());
        assert(views(parts@).take(i + 1).drop_last() =~= views(parts@).take(i as int));
        i = i + 1;
    }
    assert(views(parts@).take(parts@.len() as int) =~= views(parts@));
    text
}

fn same_parts(a: &Vec<String>, b: &Vec<String>) -> (result: bool)
    ensures
        result == (views(a@) == views(b@)),
{
    if a.len() != b.len() {
        assert(views(a@).len() != views(b@).len());
        return false;
    }
    let mut i: usize = 0;
    while i < a.len()
        invariant
            i <= a@.len(),
            a@.len() == b@.len(),
            forall|k: int| 0 <= k < i ==> a@[k]@ == b@[k]@,
        decreases a@.len() - i,
    {
        if !str_eq(a[i].as_str(), b[i].as_str()) {
            assert(views(a@)[i as int] != views(b@)[i as int]);
            return false;
        }
        i = i + 1;
    }
    assert(views(a@) =~= views(b@));
    true
}

fn starts_with(path: &Vec<String>, root: &Vec<String>) -> (result: bool)
    ensures
        result == views(root@).is_prefix_of(views(path@)),
{
    if root.len() > path.len() {
        return false;
    }
    let mut i: usize = 0;
    while i < root.len()
        invariant
            i <= root@.len(),
            root@.len() <= path@.len(),
            forall|k: int| 0 <= k < i ==> root@[k]@ == path@[k]@,
        decreases root@.len() - i,
    {
        if !str_eq(root[i].as_str(), path[i].as_str()) {
            assert(views(path@).subrange(0, root@.len() as int)[i as int] != views(root@)[i as int]);
            return false;
        }
        i = i + 1;
    }
    assert(views(root@) =~= views(path@).subrange(0, root@.len() as int));
    true
}

fn locations(values: &[String]) -> (result: Option<Vec<Vec<String>>>)
    ensures
        match result {
            Some(parts) => all_absolute(values@) && parts@.len() == values@.len() && forall|i: int|
                0 <= i < values@.len() ==> views(#[trigger] parts@[i]@) == parts_at(values@, i),
            None => !all_absolute(values@),
        },
{
    let mut parts: Vec<Vec<String>> = Vec::new();
    let mut i: usize = 0;
    while i < values.len()
        invariant
            i <= values@.len(),
            parts@.len() == i,
            forall|k: int| 0 <= k < i ==> (#[trigger] absolute_of(values@[k]@)) is Some,
            forall|k: int| 0 <= k < i ==> views(#[trigger] parts@[k]@) == parts_at(values@, k),
        decreases values@.len() - i,
    {
        match absolute_location(values[i].as_str()) {
            Some(p) => parts.push(p),
            None => {
                assert(absolute_of(values@[i as int]@) is None);
                return None;
            },
        }
        i = i + 1;
    }
    Some(parts)
}

fn all_equal(parts: &Vec<Vec<String>>) -> (result: bool)
    requires
        parts@.len() > 0,
    ensures
        result == forall|i: int|
            0 <= i < parts@.len() ==> views(#[trigger] parts@[i]@) == views(parts@[0]@),
{
    let mut i: usize = 1;
    while i < parts.len()
        invariant
            1 <= i <= parts@.len(),
            forall|k: int| 0 <= k < i ==> views(#[trigger] parts@[k]@) == views(parts@[0]@),
        decreases parts@.len() - i,
    {
        if !same_parts(&parts[i], &parts[0]) {
            return false;
        }
        i = i + 1;
    }
    true
}

fn unresolved(state: &'static str) -> (result: Location)
    ensures
        result.path is None,
        result.state == state,
{
    Location { path: None, state }
}

/// The location text of a session's working directories `cwds` under candidate
/// workspace `roots`: with only one kind of evidence it must name a single
/// location; with both, one root must contain every working directory and no
/// other root may contain any of them. More than 128 candidates, relative or
/// `..` evidence, or disagreement leave it unresolved.
#[verifier::loop_isolation(false)]
pub fn resolve_location(cwds: &[String], roots: &[String]) -> (result: Location)
    ensures
        match result.path {
            Some(p) => Some(p@),
            None => None,
        } == location_of(cwds@, roots@).0,
        result.state@ == location_of(cwds@, roots@).1,
{
    if cwds.len() > MAX_LOCATION_CANDIDATES || roots.len() > MAX_LOCATION_CANDIDATES - cwds.len() {
        return unresolved("limit");
    }
    let cwd_parts = match locations(cwds) {
        Some(p) => p,
        None => return unresolved("ambiguous"),
    };
    let root_parts = match locations(roots) {
        Some(p) => p,
        None => return unresolved("ambiguous"),
    };
    if roots.len() == 0 {
        if cwds.len() == 0 {
            return unresolved("unavailable");
        }
        if !all_equal(&cwd_parts) {
            proof {
                let w = choose|i: int|
                    !(0 <= i < cwd_parts@.len() ==> views(#[trigger] cwd_parts@[i]@) == views(
                        cwd_parts@[0]@,
                    ));
                assert(parts_at(cwds@, w) != parts_at(cwds@, 0));
            }
            return unresolved("ambiguous");
        }
        assert forall|i: int| 0 <= i < cwds@.len() implies #[trigger] parts_at(cwds@, i)
            == parts_at(cwds@, 0) by {
            assert(views(cwd_parts@[i]@) == views(cwd_parts@[0]@));
        }
        return Location { path: Some(location_text(&cwd_parts[0])), state: "available" };
    }
    if cwds.len() == 0 {
        if !all_equal(&root_parts) {
            proof {
                let w = choose|i: int|
                    !(0 <= i < root_parts@.len() ==> views(#[trigger] root_parts@[i]@) == views(
                        root_parts@[0]@,
                    ));
                assert(parts_at(roots@, w) != parts_at(roots@, 0));
            }
            return unresolved("ambiguous");
        }
        assert forall|i: int| 0 <= i < roots@.len() implies #[trigger] parts_at(roots@, i)
            == parts_at(roots@, 0) by {
            assert(views(root_parts@[i]@) == views(root_parts@[0]@));
        }
        return Location { path: Some(location_text(&root_parts[0])), state: "available" };
    }
    let mut selected: usize = 0;
    let mut i: usize = 0;
    while i < cwd_parts.len()
        invariant
            0 < cwds@.len() == cwd_parts@.len(),
            0 < roots@.len() == root_parts@.len(),
            i <= cwd_parts@.len(),
            selected < root_parts@.len(),
            forall|c: int|
                0 <= c < cwds@.len() ==> views(#[trigger] cwd_parts@[c]@) == parts_at(cwds@, c),
            forall|r: int|
                0 <= r < roots@.len() ==> views(#[trigger] root_parts@[r]@) == parts_at(roots@, r),
            forall|c: int|
                0 <= c < i ==> {
                    &&& parts_at(roots@, selected as int).is_prefix_of(
                        #[trigger] parts_at(cwds@, c),
                    )
                    &&& forall|j: int|
                        0 <= j < roots@.len() && (#[trigger] parts_at(roots@, j)).is_prefix_of(
                            parts_at(cwds@, c),
                        ) ==> parts_at(roots@, j) == parts_at(roots@, selected as int)
                },
        decreases cwd_parts@.len() - i,
    {
        let mut found: Option<usize> = None;
        let mut j: usize = 0;
        while j < root_parts.len()
            invariant
                0 < cwds@.len() == cwd_parts@.len(),
                0 < roots@.len() == root_parts@.len(),
                i < cwd_parts@.len(),
                j <= root_parts@.len(),
                forall|c: int|
                    0 <= c < cwds@.len() ==> views(#[trigger] cwd_parts@[c]@) == parts_at(
                        cwds@,
                        c,
                    ),
                forall|r: int|
                    0 <= r < roots@.len() ==> views(#[trigger] root_parts@[r]@) == parts_at(
                        roots@,
                        r,
                    ),
                match found {
                    None => forall|r: int|
                        0 <= r < j ==> !(#[trigger] parts_at(roots@, r)).is_prefix_of(
                            parts_at(cwds@, i as int),
                        ),
                    Some(f) => f < j && parts_at(roots@, f as int).is_prefix_of(
                        parts_at(cwds@, i as int),
                    ) && forall|r: int|
                        0 <= r < j && (#[trigger] parts_at(roots@, r)).is_prefix_of(
                            parts_at(cwds@, i as int),
                        ) ==> parts_at(roots@, r) == parts_at(roots@, f as int),
                },
            decreases root_parts@.len() - j,
        {
            if starts_with(&cwd_parts[i], &root_parts[j]) {
                match found {
                    None => {
                        found = Some(j);
                    },
                    Some(f) => {
                        if !same_parts(&root_parts[f], &root_parts[j]) {
                            assert forall|k: int| !sole_root(cwds@, roots@, k) by {
                                if sole_root(cwds@, roots@, k) {
                                    assert(parts_at(roots@, f as int) == parts_at(roots@, k));
                                    assert(parts_at(roots@, j as int) == parts_at(roots@, k));
                                }
                            }
                            return unresolved("ambiguous");
                        }
                    },
                }
            }
            j = j + 1;
        }
        let f = match found {
            None => {
                assert forall|k: int| !sole_root(cwds@, roots@, k) by {
                    if sole_root(cwds@, roots@, k) {
                        assert(parts_at(roots@, k).is_prefix_of(parts_at(cwds@, i as int)));
                    }
                }
                return unresolved("ambiguous");
            },
            Some(f) => f,
        };
        if i > 0 && !same_parts(&root_parts[selected], &root_parts[f]) {
            assert forall|k: int| !sole_root(cwds@, roots@, k) by {
                if sole_root(cwds@, roots@, k) {
                    assert(parts_at(roots@, k).is_prefix_of(parts_at(cwds@, 0)));
                    assert(parts_at(roots@, k) == parts_at(roots@, selected as int));
                    assert(parts_at(roots@, f as int) == parts_at(roots@, k));
                }
            }
            return unresolved("ambiguous");
        }
        if i == 0 {
            selected = f;
        }
        i = i + 1;
    }
    proof {
        assert(sole_root(cwds@, roots@, selected as int));
        let k = choose|k: int| sole_root(cwds@, roots@, k);
        assert(parts_at(roots@, k).is_prefix_of(parts_at(cwds@, 0)));
        assert(parts_at(roots@, k) == parts_at(roots@, selected as int));
    }
    Location { path: Some(location_text(&root_parts[selected])), state: "available" }
}

/// Whether every value of `a` also occurs, with the same text, in `b`.
pub open spec fn texts_within(a: Seq<String>, b: Seq<String>) -> bool {
    forall|i: int| 0 <= i < a.len() ==> exists|j: int| 0 <= j < b.len() && #[trigger] b[j]@ == #[trigger] a[i]@
}

/// Whether two lists hold the same texts, in any order and repetition.
pub open spec fn same_texts(a: Seq<String>, b: Seq<String>) -> bool {
    texts_within(a, b) && texts_within(b, a)
}

proof fn lemma_absolute_transfers(a: Seq<String>, b: Seq<String>)
    requires
        texts_within(b, a),
        all_absolute(a),
    ensures
        all_absolute(b),
{
    assert forall|j: int| 0 <= j < b.len() implies (#[trigger] absolute_of(b[j]@)) is Some by {
        let i = choose|i: int| 0 <= i < a.len() && a[i]@ == b[j]@;
        assert(absolute_of(a[i]@) is Some);
    }
}

proof fn lemma_same_transfers(a: Seq<String>, b: Seq<String>)
    requires
        same_texts(a, b),
        all_absolute(a),
        a.len() > 0,
        b.len() > 0,
        all_same(a),
    ensures
        all_same(b),
        parts_at(b, 0) == parts_at(a, 0),
{
    assert forall|j: int| 0 <= j < b.len() implies #[trigger] parts_at(b, j) == parts_at(a, 0) by {
        let i = choose|i: int| 0 <= i < a.len() && a[i]@ == b[j]@;
        assert(parts_at(a, i) == parts_at(a, 0));
    }
}

#[verifier::rlimit(30)]
proof fn lemma_sole_transfers(
    cwds: Seq<String>,
    roots: Seq<String>,
    cwds2: Seq<String>,
    roots2: Seq<String>,
    k: int,
) -> (k2: int)
    requires
        same_texts(cwds, cwds2),
        same_texts(roots, roots2),
        sole_root(cwds, roots, k),
    ensures
        sole_root(cwds2, roots2, k2),
        parts_at(roots2, k2) == parts_at(roots, k),
{
    let k2 = choose|j: int| 0 <= j < roots2.len() && roots2[j]@ == roots[k]@;
    assert(parts_at(roots2, k2) == parts_at(roots, k));
    assert forall|i: int| 0 <= i < cwds2.len() implies {
        &&& parts_at(roots2, k2).is_prefix_of(#[trigger] parts_at(cwds2, i))
        &&& forall|j: int|
            0 <= j < roots2.len() && (#[trigger] parts_at(roots2, j)).is_prefix_of(
                parts_at(cwds2, i),
            ) ==> parts_at(roots2, j) == parts_at(roots2, k2)
    } by {
        let i1 = choose|i1: int| 0 <= i1 < cwds.len() && cwds[i1]@ == cwds2[i]@;
        assert(parts_at(cwds2, i) == parts_at(cwds, i1));
        assert(parts_at(roots, k).is_prefix_of(parts_at(cwds, i1)));
        assert forall|j: int|
            0 <= j < roots2.len() && (#[trigger] parts_at(roots2, j)).is_prefix_of(
                parts_at(cwds2, i),
            ) implies parts_at(roots2, j) == parts_at(roots2, k2) by {
            let j1 = choose|j1: int| 0 <= j1 < roots.len() && roots[j1]@ == roots2[j]@;
            assert(parts_at(roots2, j) == parts_at(roots, j1));
            assert(parts_at(roots, j1).is_prefix_of(parts_at(cwds, i1)));
        }
    }
    k2
}

/// Resolution depends on the evidence's locations, not on its order or on repeated
/// evidence: two lists of working directories with the same texts and the same
/// number of entries, under two such lists of roots, resolve alike.
pub proof fn law_location_ignores_evidence_order(
    cwds: Seq<String>,
    roots: Seq<String>,
    cwds2: Seq<String>,
    roots2: Seq<String>,
)
    requires
        same_texts(cwds, cwds2),
        same_texts(roots, roots2),
        cwds.len() == cwds2.len(),
        roots.len() == roots2.len(),
    ensures
        location_of(cwds, roots) == location_of(cwds2, roots2),
{
    if all_absolute(cwds) && all_absolute(roots) {
        lemma_absolute_transfers(cwds, cwds2);
        lemma_absolute_transfers(roots, roots2);
    }
    if all_absolute(cwds2) && all_absolute(roots2) {
        lemma_absolute_transfers(cwds2, cwds);
        lemma_absolute_transfers(roots2, roots);
    }
    if cwds.len() + roots.len() <= MAX_LOCATION_CANDIDATES && all_absolute(cwds) && all_absolute(
        roots,
    ) {
        if roots.len() == 0 {
            if cwds.len() > 0 {
                if all_same(cwds) {
                    lemma_same_transfers(cwds, cwds2);
                }
                if all_same(cwds2) {
                    lemma_same_transfers(cwds2, cwds);
                }
            }
        } else if cwds.len() == 0 {
            if all_same(roots) {
                lemma_same_transfers(roots, roots2);
            }
            if all_same(roots2) {
                lemma_same_transfers(roots2, roots);
            }
        } else {
            if exists|k: int| sole_root(cwds, roots, k) {
                let k = choose|k: int| sole_root(cwds, roots, k);
                let k2 = lemma_sole_transfers(cwds, roots, cwds2, roots2, k);
                let c2 = choose|k: int| sole_root(cwds2, roots2, k);
                assert(parts_at(roots2, c2).is_prefix_of(parts_at(cwds2, 0)));
                assert(parts_at(roots2, c2) == parts_at(roots2, k2));
            }
            if exists|k: int| sole_root(cwds2, roots2, k) {
                let k = choose|k: int| sole_root(cwds2, roots2, k);
                let _ = lemma_sole_transfers(cwds2, roots2, cwds, roots, k);
            }
        }
    }
}


// ------------------------------------------------------------------ repository proofs

/// The shared Git administrative directory of a work tree, when it could be confirmed.
#[derive(Clone, Debug)]
pub struct RepositoryProof {
    pub common_directory: Option<String>,
    pub state: &'static str,
}

/// Whether a text ends a pointer line.
pub open spec fn line_end(c: char) -> bool {
    c == '\r' || c == '\n'
}

/// The text without its trailing line ends.
pub open spec fn trim_line_ends(text: Seq<char>) -> Seq<char>
    decreases text.len(),
{
    if text.len() > 0 && line_end(text.last()) { trim_line_ends(text.drop_last()) } else { text }
}

/// The value of a one-line pointer file: its text without trailing line ends, unless
/// that is empty or still holds a line end or a NUL.
pub open spec fn pointer_of(text: Seq<char>) -> Option<Seq<char>> {
    let value = trim_line_ends(text);
    if value.len() == 0 || value.contains('\r') || value.contains('\n') || value.contains('\0') {
        None
    } else {
        Some(value)
    }
}

proof fn lemma_trim_prefix(text: Seq<char>, n: int)
    requires
        0 <= n <= text.len(),
        forall|k: int| n <= k < text.len() ==> line_end(#[trigger] text[k]),
        n == 0 || !line_end(text[n - 1]),
    ensures
        trim_line_ends(text) == text.take(n),
    decreases text.len(),
{
    if text.len() > n {
        assert(text.drop_last().take(n) =~= text.take(n));
        lemma_trim_prefix(text.drop_last(), n);
    } else {
        assert(text.take(n) =~= text);
    }
}

/// The value of a pointer file's text (see `pointer_of`).
pub fn pointer_value(text: &str) -> (result: Option<String>)
    ensures
        match result {
            Some(v) => pointer_of(text@) == Some(v@),
            None => pointer_of(text@) is None,
        },
{
    let mut n = text.unicode_len();
    while n > 0 && (text.get_char(n - 1) == '\r' || text.get_char(n - 1) == '\n')
        invariant
            0 <= n <= text@.len(),
            forall|k: int| n <= k < text@.len() ==> line_end(#[trigger] text@[k]),
        decreases n,
    {
        n = n - 1;
    }
    proof {
        lemma_trim_prefix(text@, n as int);
    }
    let value = text.substring_char(0, n);
    assert(value@ =~= text@.take(n as int));
    if n == 0 {
        return None;
    }
    let mut i: usize = 0;
    while i < n
        invariant
            i <= n,
            n == value@.len(),
            n > 0,
            value@ == trim_line_ends(text@),
            forall|k: int| 0 <= k < i ==> (#[trigger] value@[k]) != '\r' && value@[k] != '\n' && value@[k] != '\0',
        decreases n - i,
    {
        let c = value.get_char(i);
        if c == '\r' || c == '\n' || c == '\0' {
            assert(value@.contains(c));
            return None;
        }
        i = i + 1;
    }
    Some(value.to_owned())
}

/// The administrative directory a linked work tree's `.git` file names.
pub fn gitdir_target(pointer: &str) -> (result: Option<&str>)
    ensures
        match result {
            Some(rest) => "gitdir: "@.is_prefix_of(pointer@) && rest@ == pointer@.skip(8),
            None => !"gitdir: "@.is_prefix_of(pointer@),
        },
{
    proof {
        reveal_strlit("gitdir: ");
    }
    strip_prefix(pointer, "gitdir: ")
}

/// Whether a pointer's value can name a directory: non-empty and at most 4096 bytes.
pub fn directory_value_ok(value: &str) -> (result: bool)
    ensures
        result == (value@.len() > 0 && byte_len(value@) <= MAX_PATH_BYTES),
{
    value.unicode_len() > 0 && value.len() <= MAX_PATH_BYTES
}

/// Whether a work tree root can be looked at: absolute on the platform and at most
/// 4096 bytes.
pub fn root_accepted(root: &str, windows: bool) -> (result: bool)
    ensures
        result == (absolute_text(root@, windows) && byte_len(root@) <= MAX_PATH_BYTES),
{
    is_absolute_path(root, windows) && root.len() <= MAX_PATH_BYTES
}

/// Where the shared directory comes from once the administrative directory is known.
#[derive(Clone, Copy, Debug, PartialEq, Eq, Structural)]
pub enum CommonSource {
    /// Read the `commondir` pointer.
    Pointer,
    /// The administrative directory is itself the shared one.
    Admin,
    /// The repository cannot be confirmed.
    Unresolved,
}

/// A `commondir` pointer is read when present; without one only a main work tree's
/// own `.git` directory is the shared directory; an unreadable presence check, or a
/// linked work tree without the pointer, leaves it unresolved.
pub fn common_source(commondir_exists: Option<bool>, linked: bool) -> (result: CommonSource)
    ensures
        result == match commondir_exists {
            Some(true) => CommonSource::Pointer,
            Some(false) => if linked { CommonSource::Unresolved } else { CommonSource::Admin },
            None => CommonSource::Unresolved,
        },
{
    match commondir_exists {
        Some(true) => CommonSource::Pointer,
        Some(false) => if linked { CommonSource::Unresolved } else { CommonSource::Admin },
        None => CommonSource::Unresolved,
    }
}

/// The proof for a resolved shared directory: confirmed when its text fits in 4096
/// bytes, otherwise unresolved.
pub fn repository_proof(common: Option<String>) -> (result: RepositoryProof)
    ensures
        match common {
            Some(t) => if byte_len(t@) <= MAX_PATH_BYTES {
                result.common_directory == Some(t) && result.state == "confirmed"
            } else {
                result.common_directory is None && result.state == "unresolved"
            },
            None => result.common_directory is None && result.state == "unresolved",
        },
{
    match common {
        Some(t) => if t.as_str().len() <= MAX_PATH_BYTES {
            RepositoryProof { common_directory: Some(t), state: "confirmed" }
        } else {
            RepositoryProof { common_directory: None, state: "unresolved" }
        },
        None => RepositoryProof { common_directory: None, state: "unresolved" },
    }
}


/// A location is found exactly when its state is `available`; the state is one of
/// `available`, `ambiguous`, `unavailable` and `limit`; and within the candidate limit,
/// any candidate that is not a lexical absolute location (empty, relative, over 4096
/// bytes, holding NUL or a `..` component) makes the evidence ambiguous.
pub proof fn law_location_states(cwds: Seq<String>, roots: Seq<String>)
    ensures
        location_of(cwds, roots).0 is Some <==> location_of(cwds, roots).1 == "available"@,
        location_of(cwds, roots).1 == "available"@ || location_of(cwds, roots).1 == "ambiguous"@
            || location_of(cwds, roots).1 == "unavailable"@ || location_of(cwds, roots).1 == "limit"@,
        cwds.len() + roots.len() <= MAX_LOCATION_CANDIDATES
            && ((exists|i: int| 0 <= i < cwds.len() && absolute_of(#[trigger] cwds[i]@) is None)
            || (exists|i: int| 0 <= i < roots.len() && absolute_of(#[trigger] roots[i]@) is None))
            ==> location_of(cwds, roots).1 == "ambiguous"@,
{
    reveal_strlit("available");
    reveal_strlit("ambiguous");
    reveal_strlit("unavailable");
    reveal_strlit("limit");
    assert("ambiguous"@ != "available"@) by {
        assert("ambiguous"@[1] != "available"@[1]);
    }
    assert("unavailable"@.len() != "available"@.len());
    assert("limit"@.len() != "available"@.len());
}

} // verus!
