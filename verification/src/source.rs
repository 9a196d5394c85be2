//! Source discovery's decisions on path text: which files are rollouts, and the
//! lexical spelling under which a path is stored.
use crate::identity::{components, components_of, joined, named, path_text, split_slash};
use crate::text::{push_char, push_str, str_eq, strip_prefix, views};
use vstd::prelude::*;

verus! {

/// The final component of a path text, unless the text ends in a root or `..`.
pub open spec fn file_name_of(path: Seq<char>) -> Option<Seq<char>> {
    let parts = components_of(path);
    if parts.len() == 0 || parts.last() == seq!['.', '.'] {
        None
    } else {
        Some(parts.last())
    }
}

/// A rollout log: a file named `rollout-…` with the extension `jsonl`.
pub open spec fn is_rollout_of(path: Seq<char>) -> bool {
    match file_name_of(path) {
        Some(name) => "rollout-"@.is_prefix_of(name) && ".jsonl"@.is_suffix_of(name),
        None => false,
    }
}

/// Whether a path names a rollout log.
pub fn is_rollout(path: &str) -> (result: bool)
    ensures
        result == is_rollout_of(path@),
{
    let parts = components(path);
    if parts.len() == 0 {
        return false;
    }
    let name = parts[parts.len() - 1].as_str();
    proof {
        reveal_strlit("..");
        reveal_strlit(".jsonl");
        assert(".."@ =~= seq!['.', '.']);
    }
    if str_eq(name, "..") {
        return false;
    }
    if strip_prefix(name, "rollout-").is_none() {
        return false;
    }
    let n = name.unicode_len();
    if n < 6 {
        return false;
    }
    let tail = name.substring_char(n - 6, n);
    let matched = str_eq(tail, ".jsonl");
    assert(matched == ".jsonl"@.is_suffix_of(name@)) by {
        assert(name@.subrange(n - 6, n as int) == tail@);
    }
    matched
}

/// The stored spelling of a path: its components rejoined, so repeated slashes,
/// `.` components and a trailing slash disappear; `..` is kept, and a relative path
/// keeps a leading `.`.
pub open spec fn normalized_of(path: Seq<char>) -> Seq<char> {
    let parts = components_of(path);
    if path.len() > 0 && path[0] == '/' {
        path_text(parts)
    } else if path == seq!['.'] || seq!['.', '/'].is_prefix_of(path) {
        seq!['.'] + joined(parts)
    } else if parts.len() == 0 {
        Seq::empty()
    } else {
        joined(parts).skip(1)
    }
}

/// The lexical normal form of a path text.
pub fn normalized_path(path: &str) -> (result: String)
    ensures
        result@ == normalized_of(path@),
{
    let parts = components(path);
    let mut text = String::new();
    let absolute = path.unicode_len() > 0 && path.get_char(0) == '/';
    proof {
        reveal_strlit(".");
        reveal_strlit("./");
        assert("."@ =~= seq!['.']);
        assert("./"@ =~= seq!['.', '/']);
    }
    let leading_dot = !absolute && (str_eq(path, ".") || strip_prefix(path, "./").is_some());
    if absolute && parts.len() == 0 {
        push_char(&mut text, '/');
        return text;
    }
    if leading_dot {
        push_char(&mut text, '.');
    }
    let mut i: usize = 0;
    while i < parts.len()
        invariant
            i <= parts@.len(),
            text@ == (if leading_dot { seq!['.'] } else { Seq::empty() }) + if absolute
                || leading_dot {
                joined(views(parts@).take(i as int))
            } else if i == 0 {
                Seq::empty()
            } else {
                joined(views(parts@).take(i as int)).skip(1)
            },
        decreases parts@.len() - i,
    {
        if i > 0 || absolute || leading_dot {
            push_char(&mut text, '/');
        }
        push_str(&mut text, parts[i].as_str());
        proof {
            let vs = views(parts@);
            assert(vs.take(i + 1).drop_last() =~= vs.take(i as int));
            if i == 0 {
                assert(joined(vs.take(0)) =~= Seq::<char>::empty());
            }
        }
        assert(text@ =~= (if leading_dot { seq!['.'] } else { Seq::empty() }) + if absolute
            || leading_dot {
            joined(views(parts@).take(i + 1))
        } else {
            joined(views(parts@).take(i + 1)).skip(1)
        });
        i = i + 1;
    }
    assert(views(parts@).take(parts@.len() as int) =~= views(parts@));
    text
}

/// The Windows extended-length prefix `\\?\`.
pub open spec fn verbatim_marker() -> Seq<char> {
    seq!['\\', '\\', '?', '\\']
}

/// The Windows extended-length UNC prefix `\\?\UNC\`.
pub open spec fn verbatim_unc_marker() -> Seq<char> {
    verbatim_marker() + seq!['U', 'N', 'C', '\\']
}

/// A path text without its Windows extended-length spelling: `\\?\UNC\server\x`
/// becomes `\\server\x`, `\\?\C:\x` becomes `C:\x`, and other text is kept.
pub open spec fn extended_stripped(path: Seq<char>) -> Seq<char> {
    if verbatim_unc_marker().is_prefix_of(path) {
        seq!['\\', '\\'] + path.skip(8)
    } else if verbatim_marker().is_prefix_of(path) {
        path.skip(4)
    } else {
        path
    }
}

/// Removes a leading Windows extended-length prefix.
pub fn extended_prefix_stripped(path: &str) -> (result: String)
    ensures
        result@ == extended_stripped(path@),
{
    proof {
        reveal_strlit("\\\\?\\UNC\\");
        reveal_strlit("\\\\?\\");
        assert("\\\\?\\UNC\\"@ =~= verbatim_unc_marker());
        assert("\\\\?\\"@ =~= verbatim_marker());
    }
    let mut text = String::new();
    match strip_prefix(path, "\\\\?\\UNC\\") {
        Some(rest) => {
            push_char(&mut text, '\\');
            push_char(&mut text, '\\');
            push_str(&mut text, rest);
        },
        None => match strip_prefix(path, "\\\\?\\") {
            Some(rest) => push_str(&mut text, rest),
            None => push_str(&mut text, path),
        },
    }
    text
}

/// The stored spelling of a path on the platform: on Windows its extended-length
/// prefix is removed first; then its components are rejoined (`normalized_of`).
pub fn platform_normalized_path(path: &str, windows: bool) -> (result: String)
    ensures
        result@ == normalized_of(if windows { extended_stripped(path@) } else { path@ }),
{
    if windows {
        let stripped = extended_prefix_stripped(path);
        normalized_path(stripped.as_str())
    } else {
        normalized_path(path)
    }
}

/// What one discovery step found: rollout paths, and whether a directory failed.
#[derive(Clone, Debug)]
pub struct Discovered {
    pub paths: Vec<String>,
    pub failed: bool,
}


/// The text of a path rebuilt from its first `count` components, spelled as
/// `normalized_of` spells it.
pub open spec fn rebuilt_of(path: Seq<char>, count: int) -> Seq<char> {
    let parts = components_of(path).take(count);
    if path.len() > 0 && path[0] == '/' {
        path_text(parts)
    } else if path == seq!['.'] || seq!['.', '/'].is_prefix_of(path) {
        seq!['.'] + joined(parts)
    } else if parts.len() == 0 {
        Seq::empty()
    } else {
        joined(parts).skip(1)
    }
}

/// The lexical parent of a path: its spelling without the last component; none when
/// it has no component (a root, or an empty or `.` path).
pub open spec fn parent_of(path: Seq<char>) -> Option<Seq<char>> {
    let n = components_of(path).len();
    if n == 0 { None } else { Some(rebuilt_of(path, n - 1)) }
}

/// The lexical parent of a path text (see `parent_of`).
pub fn parent_directory(path: &str) -> (result: Option<String>)
    ensures
        match result {
            Some(t) => parent_of(path@) == Some(t@),
            None => parent_of(path@) is None,
        },
{
    let parts = components(path);
    if parts.len() == 0 {
        return None;
    }
    let count = parts.len() - 1;
    let mut text = String::new();
    let absolute = path.unicode_len() > 0 && path.get_char(0) == '/';
    proof {
        reveal_strlit(".");
        reveal_strlit("./");
        assert("."@ =~= seq!['.']);
        assert("./"@ =~= seq!['.', '/']);
    }
    let leading_dot = !absolute && (str_eq(path, ".") || strip_prefix(path, "./").is_some());
    if absolute && count == 0 {
        push_char(&mut text, '/');
        proof {
            assert(views(parts@).take(0) =~= Seq::<Seq<char>>::empty());
        }
        return Some(text);
    }
    if leading_dot {
        push_char(&mut text, '.');
    }
    let mut i: usize = 0;
    while i < count
        invariant
            count < parts@.len(),
            i <= count,
            text@ == (if leading_dot { seq!['.'] } else { Seq::empty() }) + if absolute
                || leading_dot {
                joined(views(parts@).take(i as int))
            } else if i == 0 {
                Seq::empty()
            } else {
                joined(views(parts@).take(i as int)).skip(1)
            },
        decreases count - i,
    {
        if i > 0 || absolute || leading_dot {
            push_char(&mut text, '/');
        }
        push_str(&mut text, parts[i].as_str());
        proof {
            let vs = views(parts@);
            assert(vs.take(i + 1).drop_last() =~= vs.take(i as int));
            if i == 0 {
                assert(joined(vs.take(0)) =~= Seq::<char>::empty());
            }
        }
        assert(text@ =~= (if leading_dot { seq!['.'] } else { Seq::empty() }) + if absolute
            || leading_dot {
            joined(views(parts@).take(i + 1))
        } else {
            joined(views(parts@).take(i + 1)).skip(1)
        });
        i = i + 1;
    }
    proof {
        if leading_dot {
            assert(text@ =~= seq!['.'] + joined(views(parts@).take(count as int)));
        }
    }
    Some(text)
}

/// The automatic Codex directory: the parent of the discovered sessions directory.
pub fn automatic_directory(sessions: Option<&str>) -> (result: Option<String>)
    ensures
        match sessions {
            Some(s) => match result {
                Some(t) => parent_of(s@) == Some(t@),
                None => parent_of(s@) is None,
            },
            None => result is None,
        },
{
    match sessions {
        Some(s) => parent_directory(s),
        None => None,
    }
}


// ------------------------------------------------------------------ idempotence

/// A text without a slash.
pub open spec fn slash_free(p: Seq<char>) -> bool {
    !p.contains('/')
}

proof fn lemma_split_extend(a: Seq<char>, p: Seq<char>)
    requires
        slash_free(p),
    ensures
        split_slash(a + p) == split_slash(a).update(split_slash(a).len() - 1, split_slash(a).last() + p),
        split_slash(a).len() >= 1,
    decreases p.len(),
{
    lemma_split_nonempty(a);
    if p.len() == 0 {
        assert(a + p =~= a);
        assert(split_slash(a).last() + p =~= split_slash(a).last());
        assert(split_slash(a).update(split_slash(a).len() - 1, split_slash(a).last()) =~= split_slash(a));
    } else {
        let q = p.drop_last();
        assert(!q.contains('/')) by {
            if q.contains('/') {
                let i = choose|i: int| 0 <= i < q.len() && q[i] == '/';
                assert(p[i] == '/');
            }
        }
        lemma_split_extend(a, q);
        assert((a + p).drop_last() =~= a + q);
        assert((a + p).last() == p.last());
        assert(p.last() != '/') by {
            assert(p[p.len() - 1] == p.last());
        }
        lemma_split_nonempty(a + q);
        let s = split_slash(a);
        let rest = split_slash(a + q);
        assert(rest.len() == s.len());
        assert(rest.last() == s.last() + q);
        assert(rest.last().push(p.last()) =~= s.last() + p);
        assert(split_slash(a + p) == rest.update(rest.len() - 1, rest.last().push(p.last())));
        assert(split_slash(a + p) =~= s.update(s.len() - 1, s.last() + p));
    }
}

proof fn lemma_split_nonempty(a: Seq<char>)
    ensures
        split_slash(a).len() >= 1,
    decreases a.len(),
{
    if a.len() > 0 {
        lemma_split_nonempty(a.drop_last());
    }
}

proof fn lemma_split_joined(q: Seq<char>, parts: Seq<Seq<char>>)
    requires
        slash_free(q),
        forall|i: int| 0 <= i < parts.len() ==> slash_free(#[trigger] parts[i]),
    ensures
        split_slash(q + joined(parts)) == seq![q] + parts,
    decreases parts.len(),
{
    if parts.len() == 0 {
        assert(q + joined(parts) =~= Seq::<char>::empty() + q);
        lemma_split_extend(Seq::<char>::empty(), q);
        assert(seq![q] + parts =~= seq![q]);
        assert(seq![Seq::<char>::empty()].update(0, Seq::<char>::empty() + q) =~= seq![q]) by {
            assert(Seq::<char>::empty() + q =~= q);
        }
    } else {
        let front = parts.drop_last();
        let last = parts.last();
        assert(slash_free(last)) by {
            assert(parts[parts.len() - 1] == last);
        }
        lemma_split_joined(q, front);
        let base = q + joined(front) + seq!['/'];
        assert(q + joined(parts) =~= base + last);
        assert(base.drop_last() =~= q + joined(front));
        assert(split_slash(base) == split_slash(q + joined(front)).push(Seq::<char>::empty()));
        lemma_split_extend(base, last);
        let s = split_slash(base);
        assert(s.last() + last =~= last) by {
            assert(s.last() == Seq::<char>::empty());
        }
        assert(split_slash(q + joined(parts)) =~= seq![q] + parts);
    }
}

proof fn lemma_filter_named(q: Seq<char>, parts: Seq<Seq<char>>)
    requires
        forall|i: int| 0 <= i < parts.len() ==> named(#[trigger] parts[i]),
    ensures
        (seq![q] + parts).filter(|piece: Seq<char>| named(piece)) == if named(q) { seq![q] + parts } else { parts },
    decreases parts.len(),
{
    parts.lemma_filter_prepend(q, |piece: Seq<char>| named(piece));
    lemma_filter_all(parts);
    if named(q) {
    } else {
        assert(Seq::<Seq<char>>::empty() + parts =~= parts);
    }
}

proof fn lemma_filter_all(parts: Seq<Seq<char>>)
    requires
        forall|i: int| 0 <= i < parts.len() ==> named(#[trigger] parts[i]),
    ensures
        parts.filter(|piece: Seq<char>| named(piece)) == parts,
    decreases parts.len(),
{
    reveal(Seq::filter);
    if parts.len() > 0 {
        let front = parts.drop_last();
        assert forall|i: int| 0 <= i < front.len() implies named(#[trigger] front[i]) by {
            assert(front[i] == parts[i]);
        }
        lemma_filter_all(front);
        assert(named(parts[parts.len() - 1]));
        assert(front.push(parts.last()) =~= parts);
    }
}

proof fn lemma_split_pieces(text: Seq<char>)
    ensures
        forall|i: int| 0 <= i < split_slash(text).len() ==> slash_free(#[trigger] split_slash(text)[i]),
    decreases text.len(),
{
    if text.len() > 0 {
        let front = text.drop_last();
        lemma_split_pieces(front);
        lemma_split_nonempty(front);
        let rest = split_slash(front);
        if text.last() != '/' {
            assert forall|i: int| 0 <= i < split_slash(text).len() implies slash_free(#[trigger] split_slash(text)[i]) by {
                if i == rest.len() - 1 {
                    let piece = rest.last().push(text.last());
                    assert(slash_free(rest[rest.len() - 1]));
                    if piece.contains('/') {
                        let k = choose|k: int| 0 <= k < piece.len() && piece[k] == '/';
                        if k < rest.last().len() {
                            assert(rest.last()[k] == '/');
                            assert(rest.last().contains('/'));
                        }
                    }
                }
            }
        } else {
            assert forall|i: int| 0 <= i < split_slash(text).len() implies slash_free(#[trigger] split_slash(text)[i]) by {
                if i == rest.len() {
                    assert(split_slash(text)[i] =~= Seq::<char>::empty());
                }
            }
        }
    }
}

proof fn lemma_components_shape(text: Seq<char>)
    ensures
        forall|i: int| 0 <= i < components_of(text).len() ==> named(#[trigger] components_of(text)[i])
            && slash_free(components_of(text)[i]),
{
    lemma_split_pieces(text);
    let pred = |piece: Seq<char>| named(piece);
    assert forall|i: int| 0 <= i < components_of(text).len() implies named(#[trigger] components_of(text)[i])
        && slash_free(components_of(text)[i]) by {
        split_slash(text).lemma_filter_pred(pred, i);
        split_slash(text).lemma_filter_contains_rev(pred, components_of(text)[i]);
        let k = choose|k: int| 0 <= k < split_slash(text).len() && split_slash(text)[k] == components_of(text)[i];
    }
}

proof fn lemma_joined_head(p: Seq<char>, rest: Seq<Seq<char>>)
    ensures
        joined(seq![p] + rest) == seq!['/'] + p + joined(rest),
    decreases rest.len(),
{
    if rest.len() == 0 {
        assert(seq![p] + rest =~= seq![p]);
        assert(seq![p].drop_last() =~= Seq::<Seq<char>>::empty());
        assert(joined(Seq::<Seq<char>>::empty()) =~= Seq::<char>::empty());
        assert(joined(seq![p]) =~= seq!['/'] + p + joined(rest));
    } else {
        lemma_joined_head(p, rest.drop_last());
        assert((seq![p] + rest).drop_last() =~= seq![p] + rest.drop_last());
        assert((seq![p] + rest).last() == rest.last());
        assert(joined(seq![p] + rest) =~= seq!['/'] + p + joined(rest));
    }
}

proof fn lemma_no_named_piece()
    ensures
        seq![Seq::<char>::empty()].filter(|piece: Seq<char>| named(piece)) == Seq::<Seq<char>>::empty(),
{
    let e = Seq::<Seq<char>>::empty();
    e.lemma_filter_prepend(Seq::<char>::empty(), |piece: Seq<char>| named(piece));
    assert(seq![Seq::<char>::empty()] + e =~= seq![Seq::<char>::empty()]);
    reveal(Seq::filter);
    assert(e.filter(|piece: Seq<char>| named(piece)) =~= e);
    assert(Seq::<Seq<char>>::empty() + e =~= e);
}

proof fn lemma_root_is_normal()
    ensures
        components_of(seq!['/']) == Seq::<Seq<char>>::empty(),
{
    let root = seq!['/'];
    assert(root.drop_last() =~= Seq::<char>::empty());
    assert(root.last() == '/');
    assert(split_slash(Seq::<char>::empty()) == seq![Seq::<char>::empty()]);
    assert(split_slash(root) == seq![Seq::<char>::empty()].push(Seq::<char>::empty()));
    assert(seq![Seq::<char>::empty()].push(Seq::<char>::empty()) =~= seq![Seq::<char>::empty()] + seq![Seq::<char>::empty()]);
    lemma_filter_named(Seq::<char>::empty(), seq![Seq::<char>::empty()].drop_first());
    assert(seq![Seq::<char>::empty()].drop_first() =~= Seq::<Seq<char>>::empty());
    lemma_no_named_piece();
}

proof fn lemma_empty_is_normal()
    ensures
        components_of(Seq::<char>::empty()) == Seq::<Seq<char>>::empty(),
{
    assert(split_slash(Seq::<char>::empty()) == seq![Seq::<char>::empty()]);
    lemma_no_named_piece();
}

proof fn lemma_components_of_joined(q: Seq<char>, parts: Seq<Seq<char>>)
    requires
        slash_free(q),
        forall|i: int| 0 <= i < parts.len() ==> named(#[trigger] parts[i]) && slash_free(parts[i]),
    ensures
        components_of(q + joined(parts)) == if named(q) { seq![q] + parts } else { parts },
{
    lemma_split_joined(q, parts);
    lemma_filter_named(q, parts);
}

proof fn lemma_relative_normal(first: Seq<char>, rest: Seq<Seq<char>>)
    requires
        named(first),
        slash_free(first),
        forall|i: int| 0 <= i < rest.len() ==> named(#[trigger] rest[i]) && slash_free(rest[i]),
    ensures
        ({
            let n = first + joined(rest);
            &&& components_of(n) == seq![first] + rest
            &&& !(n.len() > 0 && n[0] == '/')
            &&& !(n == seq!['.'] || seq!['.', '/'].is_prefix_of(n))
            &&& joined(seq![first] + rest).skip(1) == n
        }),
{
    let n = first + joined(rest);
    lemma_components_of_joined(first, rest);
    lemma_joined_head(first, rest);
    assert(joined(seq![first] + rest).skip(1) =~= n);
    assert(n[0] == first[0]);
    if first[0] == '/' {
        assert(first.contains('/'));
    }
    if n == seq!['.'] {
        assert(n.len() == 1);
        assert(first =~= seq!['.']);
    }
    if seq!['.', '/'].is_prefix_of(n) {
        if first.len() >= 2 {
            assert(n[1] == first[1]);
            assert(first.contains('/'));
        } else {
            assert(first =~= seq!['.']);
        }
    }
}

/// Normalizing twice changes nothing: the stored spelling of a path is already in
/// lexical normal form.
#[verifier::rlimit(40)]
pub proof fn law_normalized_path_is_idempotent(path: Seq<char>)
    ensures
        normalized_of(normalized_of(path)) == normalized_of(path),
{
    let parts = components_of(path);
    let n = normalized_of(path);
    lemma_components_shape(path);
    if path.len() > 0 && path[0] == '/' {
        if parts.len() == 0 {
            assert(n == seq!['/']);
            lemma_root_is_normal();
        } else {
            lemma_components_of_joined(Seq::<char>::empty(), parts);
            assert(Seq::<char>::empty() + joined(parts) =~= joined(parts));
            lemma_joined_head(parts[0], parts.drop_first());
            assert(seq![parts[0]] + parts.drop_first() =~= parts);
            assert(n[0] == '/');
        }
    } else if path == seq!['.'] || seq!['.', '/'].is_prefix_of(path) {
        let dot = seq!['.'];
        lemma_components_of_joined(dot, parts);
        if parts.len() == 0 {
            assert(n =~= dot);
        } else {
            lemma_joined_head(parts[0], parts.drop_first());
            assert(seq![parts[0]] + parts.drop_first() =~= parts);
            assert(n[0] == '.' && n[1] == '/');
            assert(seq!['.', '/'].is_prefix_of(n));
        }
    } else if parts.len() == 0 {
        assert(n =~= Seq::<char>::empty());
        lemma_empty_is_normal();
    } else {
        let first = parts[0];
        let rest = parts.drop_first();
        assert(seq![first] + rest =~= parts);
        assert forall|i: int| 0 <= i < rest.len() implies named(#[trigger] rest[i]) && slash_free(rest[i]) by {
            assert(rest[i] == parts[i + 1]);
        }
        lemma_relative_normal(first, rest);
    }
}


// ------------------------------------------------------------------ sessions directory

/// A path with one more relative component, as `PathBuf::join` spells it: a separator
/// goes between them unless the path is empty or already ends in one.
pub open spec fn joined_of(base: Seq<char>, name: Seq<char>) -> Seq<char> {
    if base.len() == 0 || base.last() == '/' { base + name } else { base + seq!['/'] + name }
}

/// The Codex sessions directory: `sessions` under `CODEX_HOME` when it is set and
/// non-empty, otherwise under `.codex` in the user's profile directory, or in the
/// home directory when no profile directory is set; none when neither is set.
pub open spec fn sessions_directory_of(
    codex_home: Option<Seq<char>>,
    user_profile: Option<Seq<char>>,
    home: Option<Seq<char>>,
) -> Option<Seq<char>> {
    match codex_home {
        Some(h) if h.len() > 0 => Some(joined_of(h, "sessions"@)),
        _ => match (if user_profile is Some { user_profile } else { home }) {
            Some(u) => Some(joined_of(joined_of(u, ".codex"@), "sessions"@)),
            None => None,
        },
    }
}

fn join_name(base: &str, name: &str) -> (result: String)
    ensures
        result@ == joined_of(base@, name@),
{
    let mut text = owned_text(base);
    let n = base.unicode_len();
    if n > 0 && base.get_char(n - 1) != '/' {
        push_char(&mut text, '/');
    }
    push_str(&mut text, name);
    proof {
        if n > 0 {
            assert(base@.last() == base@[n - 1]);
        }
    }
    text
}

fn owned_text(t: &str) -> (result: String)
    ensures
        result@ == t@,
{
    let mut text = String::new();
    push_str(&mut text, t);
    assert(text@ =~= t@);
    text
}

/// Where the Codex sessions live, from the `CODEX_HOME`, `USERPROFILE` and `HOME`
/// environment values (see `sessions_directory_of`).
pub fn sessions_directory(codex_home: Option<&str>, user_profile: Option<&str>, home: Option<&str>) -> (result: Option<String>)
    ensures
        match result {
            Some(t) => sessions_directory_of(str_opt(codex_home), str_opt(user_profile), str_opt(home)) == Some(t@),
            None => sessions_directory_of(str_opt(codex_home), str_opt(user_profile), str_opt(home)) is None,
        },
{
    proof {
        reveal_strlit("sessions");
        reveal_strlit(".codex");
    }
    if let Some(h) = codex_home {
        if h.unicode_len() > 0 {
            return Some(join_name(h, "sessions"));
        }
    }
    let base = match user_profile {
        Some(u) => Some(u),
        None => home,
    };
    match base {
        Some(u) => {
            let codex = join_name(u, ".codex");
            Some(join_name(codex.as_str(), "sessions"))
        },
        None => None,
    }
}

/// The view of an optional text slice.
pub open spec fn str_opt(value: Option<&str>) -> Option<Seq<char>> {
    match value {
        Some(v) => Some(v@),
        None => None,
    }
}

} // verus!
