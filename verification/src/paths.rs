//! Where a discarded file is stored: the sanitized components of the working
//! path that the agent is told, and of the object key in the bucket.
use vstd::prelude::*;
use vstd::string::*;
use crate::config::{ChannelRef, S3OffloadSettings};
use crate::text::{
    chars_of, is_safe_char, lemma_trim_end_shape, lemma_trim_start_shape, safe_char, string_of,
    trim, trim_bounds, trim_end, trim_start, underscore, whitespace,
};

verus! {

/// The characters at which a path is split into components.
pub open spec fn is_separator(c: char) -> bool {
    c == '/' || c == '\\'
}

/// The pieces of `s` between separators, in order, as `str::split` with the
/// separators `/` and `\` yields them: there is always at least one piece, and
/// neighbouring separators enclose an empty piece.
pub open spec fn split_path(s: Seq<char>) -> Seq<Seq<char>>
    decreases s.len(),
{
    if s.len() == 0 {
        seq![Seq::<char>::empty()]
    } else {
        let prev = split_path(s.drop_last());
        if is_separator(s.last()) {
            prev.push(Seq::<char>::empty())
        } else {
            prev.update(prev.len() - 1, prev.last().push(s.last()))
        }
    }
}

/// `s` with each character that may not stand in a component replaced by `_`.
pub open spec fn replace_unsafe(s: Seq<char>) -> Seq<char> {
    s.map_values(
        |c: char|
            if is_safe_char(c) {
                c
            } else {
                '_'
            },
    )
}

/// The names that refer to a directory itself or to its parent.
pub open spec fn is_dot_name(t: Seq<char>) -> bool {
    t == seq!['.'] || t == seq!['.', '.']
}

/// The sanitized form of a path component: unsafe characters become `_`,
/// leading and trailing `_` are dropped, and what is left empty, or is `.` or
/// `..`, becomes `fallback`.
pub open spec fn sanitized_component(s: Seq<char>, fallback: Seq<char>) -> Seq<char> {
    let t = trim(replace_unsafe(s), underscore());
    if t.len() == 0 || is_dot_name(t) {
        fallback
    } else {
        t
    }
}

/// A piece of a configured path that is kept as a component: once trimmed of
/// whitespace it is neither empty, nor `.`, nor `..`.
pub open spec fn keeps_piece(p: Seq<char>) -> bool {
    let t = trim(p, whitespace());
    t.len() != 0 && t != seq!['.'] && t != seq!['.', '.']
}

/// The kept pieces, each sanitized with the fallback `dir`.
pub open spec fn clean_pieces(pieces: Seq<Seq<char>>) -> Seq<Seq<char>>
    decreases pieces.len(),
{
    if pieces.len() == 0 {
        Seq::empty()
    } else {
        let rest = clean_pieces(pieces.drop_last());
        if keeps_piece(pieces.last()) {
            rest.push(sanitized_component(pieces.last(), "dir"@))
        } else {
            rest
        }
    }
}

/// The components of a configured directory.
pub open spec fn clean_path(s: Seq<char>) -> Seq<Seq<char>> {
    clean_pieces(split_path(s))
}

/// The stored name of a file: its last path piece, trimmed of whitespace and
/// sanitized with the fallback `file`.
pub open spec fn sanitized_filename(f: Seq<char>) -> Seq<char> {
    sanitized_component(trim(split_path(f).last(), whitespace()), "file"@)
}

/// The components under `base`: those of `base`, then the sanitized session
/// key where there is one, then the sanitized file name.
pub open spec fn path_components(
    base: Seq<char>,
    session: Option<Seq<char>>,
    filename: Seq<char>,
) -> Seq<Seq<char>> {
    let dirs = match session {
        Some(k) => clean_path(base).push(sanitized_component(k, "session"@)),
        None => clean_path(base),
    };
    dirs.push(sanitized_filename(filename))
}

/// The parts joined, with `sep` between each two.
pub open spec fn join(parts: Seq<Seq<char>>, sep: Seq<char>) -> Seq<char>
    decreases parts.len(),
{
    if parts.len() == 0 {
        Seq::empty()
    } else if parts.len() == 1 {
        parts[0]
    } else {
        join(parts.drop_last(), sep) + sep + parts.last()
    }
}

/// The contents of the strings, in order.
pub open spec fn strings_view(v: Seq<String>) -> Seq<Seq<char>> {
    v.map_values(|s: String| s@)
}

/// The contents of the character vectors, in order.
pub open spec fn char_vecs_view(v: Seq<Vec<char>>) -> Seq<Seq<char>> {
    v.map_values(|s: Vec<char>| s@)
}

/// The key under which a conversation's files are grouped:
/// `<platform>:<thread, or else channel>`.
pub open spec fn session_key_of(platform: Seq<char>, channel: Seq<char>, thread: Option<Seq<char>>) -> Seq<char> {
    platform + ":"@ + match thread {
        Some(t) => t,
        None => channel,
    }
}

proof fn lemma_split_path_nonempty(s: Seq<char>)
    ensures
        split_path(s).len() >= 1,
    decreases s.len(),
{
    if s.len() > 0 {
        lemma_split_path_nonempty(s.drop_last());
    }
}

/// The pieces of `v` between separators.
fn split_chars(v: &Vec<char>) -> (pieces: Vec<Vec<char>>)
    ensures
        char_vecs_view(pieces@) == split_path(v@),
{
    let mut pieces: Vec<Vec<char>> = Vec::new();
    let mut cur: Vec<char> = Vec::new();
    let mut i: usize = 0;
    assert(v@.take(0) =~= Seq::<char>::empty());
    assert(char_vecs_view(pieces@).push(cur@) =~= split_path(v@.take(0)));
    while i < v.len()
        invariant
            i <= v@.len(),
            char_vecs_view(pieces@).push(cur@) == split_path(v@.take(i as int)),
        decreases v@.len() - i,
    {
        let c = v[i];
        let ghost before = v@.take(i as int);
        assert(v@.take(i + 1).drop_last() =~= before);
        assert(v@.take(i + 1).last() == c);
        if c == '/' || c == '\\' {
            pieces.push(cur);
            cur = Vec::new();
            assert(char_vecs_view(pieces@).push(cur@) =~= split_path(before).push(
                Seq::<char>::empty(),
            ));
        } else {
            let ghost old_pieces = char_vecs_view(pieces@);
            cur.push(c);
            assert(char_vecs_view(pieces@) == old_pieces);
            let ghost prev = split_path(before);
            assert(char_vecs_view(pieces@).push(cur@) =~= prev.update(
                prev.len() - 1,
                prev.last().push(c),
            ));
        }
        i += 1;
    }
    assert(v@.take(v@.len() as int) =~= v@);
    pieces.push(cur);
    assert(char_vecs_view(pieces@) =~= split_path(v@));
    pieces
}

/// The sanitized form of the component `v[from..to]`.
fn sanitize_range(v: &Vec<char>, from: usize, to: usize, fallback: &str) -> (r: String)
    requires
        from <= to <= v@.len(),
    ensures
        r@ == sanitized_component(v@.subrange(from as int, to as int), fallback@),
{
    let ghost part = v@.subrange(from as int, to as int);
    let mut mapped: Vec<char> = Vec::new();
    let mut i: usize = from;
    while i < to
        invariant
            from <= i <= to <= v@.len(),
            part == v@.subrange(from as int, to as int),
            mapped@.len() == i - from,
            forall|k: int|
                0 <= k < i - from ==> #[trigger] mapped@[k] == (if is_safe_char(part[k]) {
                    part[k]
                } else {
                    '_'
                }),
        decreases to - i,
    {
        let c = v[i];
        if safe_char(c) {
            mapped.push(c);
        } else {
            mapped.push('_');
        }
        i += 1;
    }
    assert(mapped@ =~= replace_unsafe(part));
    let (a, b) = trim_bounds(&mapped, false);
    let ghost t = mapped@.subrange(a as int, b as int);
    let len = b - a;
    let dots = (len == 1 && mapped[a] == '.') || (len == 2 && mapped[a] == '.' && mapped[a + 1]
        == '.');
    proof {
        assert(t.len() == len);
        if len >= 1 {
            assert(t[0] == mapped@[a as int]);
        }
        if len >= 2 {
            assert(t[1] == mapped@[a + 1]);
        }
        if len == 1 && mapped@[a as int] == '.' {
            assert(t =~= seq!['.']);
        }
        if len == 2 && mapped@[a as int] == '.' && mapped@[a + 1] == '.' {
            assert(t =~= seq!['.', '.']);
        }
        if t == seq!['.'] {
            assert(t[0] == '.');
        }
        if t == seq!['.', '.'] {
            assert(t[0] == '.' && t[1] == '.');
        }
    }
    if a == b || dots {
        String::from_str(fallback)
    } else {
        string_of(&mapped, a, b)
    }
}

/// Makes `component` safe to use as one component of a path: each character
/// other than an ASCII letter or digit, `-`, `_` and `.` becomes `_`, leading
/// and trailing `_` are dropped, and an empty result is replaced by `fallback`.
pub fn sanitize_path_component(component: &str, fallback: &str) -> (r: String)
    ensures
        r@ == sanitized_component(component@, fallback@),
{
    let v = chars_of(component);
    assert(v@.subrange(0, v@.len() as int) =~= v@);
    sanitize_range(&v, 0, v.len(), fallback)
}

/// Whether the piece `v` is kept as a component of a configured path.
fn keeps(v: &Vec<char>) -> (b: bool)
    ensures
        b == keeps_piece(v@),
{
    let (a, z) = trim_bounds(v, true);
    let ghost t = v@.subrange(a as int, z as int);
    let len = z - a;
    let is_dot = len == 1 && v[a] == '.';
    let is_dot_dot = len == 2 && v[a] == '.' && v[a + 1] == '.';
    proof {
        assert(t.len() == len);
        if len >= 1 {
            assert(t[0] == v@[a as int]);
        }
        if len >= 2 {
            assert(t[1] == v@[a + 1]);
        }
        if is_dot {
            assert(t =~= seq!['.']);
        }
        if is_dot_dot {
            assert(t =~= seq!['.', '.']);
        }
        if t == seq!['.'] {
            assert(t[0] == '.');
        }
        if t == seq!['.', '.'] {
            assert(t[0] == '.' && t[1] == '.');
        }
    }
    len != 0 && !is_dot && !is_dot_dot
}

/// The components of a configured path: it is split at `/` and `\`, pieces
/// that are empty, `.` or `..` once trimmed of whitespace are dropped, and
/// the others are sanitized with the fallback `dir`.
pub fn split_clean_path(path: &str) -> (parts: Vec<String>)
    ensures
        strings_view(parts@) == clean_path(path@),
{
    let v = chars_of(path);
    let pieces = split_chars(&v);
    let ghost pv = char_vecs_view(pieces@);
    let mut parts: Vec<String> = Vec::new();
    let mut i: usize = 0;
    assert(pv.take(0) =~= Seq::<Seq<char>>::empty());
    assert(strings_view(parts@) =~= clean_pieces(pv.take(0)));
    while i < pieces.len()
        invariant
            i <= pieces@.len(),
            pv == char_vecs_view(pieces@),
            strings_view(parts@) == clean_pieces(pv.take(i as int)),
        decreases pieces@.len() - i,
    {
        let piece = &pieces[i];
        assert(pv.take(i + 1).drop_last() =~= pv.take(i as int));
        assert(pv.take(i + 1).last() == piece@);
        if keeps(piece) {
            assert(piece@.subrange(0, piece@.len() as int) =~= piece@);
            let s = sanitize_range(piece, 0, piece.len(), "dir");
            let ghost old_parts = strings_view(parts@);
            parts.push(s);
            assert(strings_view(parts@) =~= old_parts.push(s@));
        }
        i += 1;
    }
    assert(pv.take(pieces@.len() as int) =~= pv);
    parts
}

/// The name under which a file is stored: its last path piece (after the last
/// `/` or `\`), trimmed of whitespace and sanitized with the fallback `file`.
pub fn sanitize_filename(filename: &str) -> (r: String)
    ensures
        r@ == sanitized_filename(filename@),
{
    let v = chars_of(filename);
    let pieces = split_chars(&v);
    proof {
        lemma_split_path_nonempty(v@);
    }
    let last = &pieces[pieces.len() - 1];
    assert(last@ == split_path(v@).last());
    let (a, b) = trim_bounds(last, true);
    sanitize_range(last, a, b, "file")
}

/// The strings joined, with `sep` between each two.
pub fn join_strings(parts: &Vec<String>, sep: &str) -> (r: String)
    ensures
        r@ == join(strings_view(parts@), sep@),
{
    let ghost pv = strings_view(parts@);
    let mut r = String::new();
    let mut i: usize = 0;
    assert(pv.take(0) =~= Seq::<Seq<char>>::empty());
    while i < parts.len()
        invariant
            i <= parts@.len(),
            pv == strings_view(parts@),
            r@ == join(pv.take(i as int), sep@),
        decreases parts@.len() - i,
    {
        assert(pv.take(i + 1).drop_last() =~= pv.take(i as int));
        if i != 0 {
            r.append(sep);
        }
        r.append(parts[i].as_str());
        i += 1;
        if i == 1 {
            assert(r@ =~= join(pv.take(1), sep@));
        }
    }
    assert(pv.take(parts@.len() as int) =~= pv);
    r
}

/// Where a discarded file is placed: the path in the agent's working
/// directory, and the key of the object in the bucket.
#[derive(Debug, Clone, PartialEq, Eq)]
pub struct ComputedPaths {
    pub working_path: String,
    pub object_key: String,
}

/// The working path and the object key of a discarded file. The working path
/// is `/` followed by the components of `working_dir`, then of the session key
/// where one is given, then of the file name, joined by `/`; the object key
/// joins, in the same way, the components of the configured directory, of the
/// session key and of the file name.
pub fn compute_paths(
    settings: &S3OffloadSettings,
    working_dir: &str,
    session_key: Option<&str>,
    filename: &str,
) -> (paths: ComputedPaths)
    ensures
        paths.working_path@ == "/"@ + join(
            path_components(working_dir@, session_key.deep_view(), filename@),
            "/"@,
        ),
        paths.object_key@ == join(
            path_components(settings.directory@, session_key.deep_view(), filename@),
            "/"@,
        ),
{
    let file = sanitize_filename(filename);
    let mut working_parts = split_clean_path(working_dir);
    let ghost w0 = strings_view(working_parts@);
    match session_key {
        Some(k) => {
            let s = sanitize_path_component(k, "session");
            working_parts.push(s);
        },
        None => {},
    }
    let ghost w1 = strings_view(working_parts@);
    working_parts.push(file.clone());
    assert(strings_view(working_parts@) =~= w1.push(file@));
    proof {
        match session_key {
            Some(k) => {
                assert(w1 =~= w0.push(sanitized_component(k@, "session"@)));
            },
            None => {
                assert(w1 =~= w0);
            },
        }
    }
    let joined = join_strings(&working_parts, "/");
    let mut working_path = String::from_str("/");
    working_path.append(joined.as_str());
    let mut object_parts = split_clean_path(settings.directory.as_str());
    let ghost o0 = strings_view(object_parts@);
    match session_key {
        Some(k) => {
            let s = sanitize_path_component(k, "session");
            object_parts.push(s);
        },
        None => {},
    }
    let ghost o1 = strings_view(object_parts@);
    object_parts.push(file);
    assert(strings_view(object_parts@) =~= o1.push(file@));
    proof {
        match session_key {
            Some(k) => {
                assert(o1 =~= o0.push(sanitized_component(k@, "session"@)));
            },
            None => {
                assert(o1 =~= o0);
            },
        }
    }
    let object_key = join_strings(&object_parts, "/");
    ComputedPaths { working_path, object_key }
}

/// The session key of the conversation that `channel` names:
/// `<platform>:<thread id>` in a thread, `<platform>:<channel id>` otherwise.
pub fn session_key(channel: &ChannelRef) -> (r: String)
    ensures
        r@ == session_key_of(
            channel.platform@,
            channel.channel_id@,
            channel.thread_id.deep_view(),
        ),
{
    let thread: &String = match &channel.thread_id {
        Some(t) => t,
        None => &channel.channel_id,
    };
    let mut r = channel.platform.clone();
    r.append(":");
    r.append(thread.as_str());
    r
}

/// A component that needs no more sanitizing: non-empty, made of safe
/// characters only, neither beginning nor ending with `_`, and neither `.`
/// nor `..`.
pub open spec fn is_clean_component(c: Seq<char>) -> bool {
    &&& c.len() > 0
    &&& forall|i: int| 0 <= i < c.len() ==> is_safe_char(#[trigger] c[i])
    &&& c[0] != '_'
    &&& c.last() != '_'
    &&& !is_dot_name(c)
}

/// No character of `c` is a separator.
pub open spec fn has_no_separator(c: Seq<char>) -> bool {
    forall|i: int| 0 <= i < c.len() ==> !is_separator(#[trigger] c[i])
}

/// A sanitized component is the fallback, or else it is non-empty, made of
/// ASCII letters and digits, `-`, `_` and `.` only, neither begins nor ends
/// with `_`, and is neither `.` nor `..`. With a clean fallback it is always
/// clean.
pub proof fn lemma_sanitized_component_is_clean(s: Seq<char>, fallback: Seq<char>)
    ensures
        sanitized_component(s, fallback) == fallback || is_clean_component(
            sanitized_component(s, fallback),
        ),
        is_clean_component(fallback) ==> is_clean_component(sanitized_component(s, fallback)),
{
    let m = replace_unsafe(s);
    let k1 = lemma_trim_start_shape(m, underscore());
    let ts = trim_start(m, underscore());
    let k2 = lemma_trim_end_shape(ts, underscore());
    let t = trim(m, underscore());
    assert(t == ts.subrange(0, k2));
    if t.len() > 0 {
        assert(t[0] == m[k1]);
        assert(t.last() == ts[k2 - 1]);
        assert forall|i: int| 0 <= i < t.len() implies is_safe_char(#[trigger] t[i]) by {
            assert(t[i] == m[k1 + i]);
        }
    }
}

/// Sanitizing a sanitized component changes nothing, when the fallback is
/// itself clean.
pub proof fn lemma_sanitize_idempotent(s: Seq<char>, fallback: Seq<char>)
    requires
        is_clean_component(fallback),
    ensures
        sanitized_component(sanitized_component(s, fallback), fallback) == sanitized_component(
            s,
            fallback,
        ),
{
    let r = sanitized_component(s, fallback);
    lemma_sanitized_component_is_clean(s, fallback);
    assert(replace_unsafe(r) =~= r);
    assert(trim_start(r, underscore()) == r);
    assert(trim_end(r, underscore()) == r);
}

/// The fallback components are clean.
proof fn lemma_fallbacks_clean()
    ensures
        is_clean_component("dir"@),
        is_clean_component("session"@),
        is_clean_component("file"@),
{
    reveal_strlit("dir");
    reveal_strlit("session");
    reveal_strlit("file");
}

/// A clean component has no separator.
proof fn lemma_clean_has_no_separator(c: Seq<char>)
    requires
        is_clean_component(c),
    ensures
        has_no_separator(c),
{
    assert forall|i: int| 0 <= i < c.len() implies !is_separator(#[trigger] c[i]) by {
        assert(is_safe_char(c[i]));
    }
}

proof fn lemma_clean_pieces_clean(pieces: Seq<Seq<char>>)
    ensures
        forall|i: int|
            0 <= i < clean_pieces(pieces).len() ==> is_clean_component(
                #[trigger] clean_pieces(pieces)[i],
            ),
    decreases pieces.len(),
{
    if pieces.len() > 0 {
        let rest = clean_pieces(pieces.drop_last());
        lemma_clean_pieces_clean(pieces.drop_last());
        lemma_fallbacks_clean();
        lemma_sanitized_component_is_clean(pieces.last(), "dir"@);
        let cp = clean_pieces(pieces);
        assert forall|i: int| 0 <= i < cp.len() implies is_clean_component(#[trigger] cp[i]) by {
            if i < rest.len() {
                assert(cp[i] == rest[i]);
            }
        }
    }
}

/// Every component of a working path or an object key is clean: non-empty,
/// of safe characters only, neither beginning nor ending with `_`, and
/// neither `.` nor `..`, so that no component names the directory itself or
/// its parent.
pub proof fn lemma_path_components_clean(
    base: Seq<char>,
    session: Option<Seq<char>>,
    filename: Seq<char>,
)
    ensures
        forall|i: int|
            0 <= i < path_components(base, session, filename).len() ==> is_clean_component(
                #[trigger] path_components(base, session, filename)[i],
            ),
{
    let c = path_components(base, session, filename);
    lemma_clean_pieces_clean(split_path(base));
    lemma_fallbacks_clean();
    lemma_sanitized_component_is_clean(trim(split_path(filename).last(), whitespace()), "file"@);
    match session {
        Some(k) => {
            lemma_sanitized_component_is_clean(k, "session"@);
        },
        None => {},
    }
    assert forall|i: int| 0 <= i < c.len() implies is_clean_component(#[trigger] c[i]) by {
        let dirs = clean_path(base);
        if i < dirs.len() {
            assert(c[i] == dirs[i]);
        }
    }
}

proof fn lemma_split_no_separator(x: Seq<char>)
    requires
        has_no_separator(x),
    ensures
        split_path(x) == seq![x],
    decreases x.len(),
{
    if x.len() > 0 {
        assert(has_no_separator(x.drop_last()));
        lemma_split_no_separator(x.drop_last());
        assert(x.drop_last().push(x.last()) =~= x);
        assert(split_path(x) =~= seq![x]);
    } else {
        assert(x =~= Seq::<char>::empty());
    }
}

proof fn lemma_split_push_separator(a: Seq<char>, c: char)
    requires
        is_separator(c),
    ensures
        split_path(a.push(c)) == split_path(a).push(Seq::<char>::empty()),
{
    assert(a.push(c).drop_last() =~= a);
}

proof fn lemma_split_append_plain(a: Seq<char>, b: Seq<char>)
    requires
        has_no_separator(b),
    ensures
        split_path(a + b) == split_path(a).update(
            split_path(a).len() - 1,
            split_path(a).last() + b,
        ),
        split_path(a).len() >= 1,
    decreases b.len(),
{
    lemma_split_path_nonempty(a);
    let sa = split_path(a);
    if b.len() == 0 {
        assert(a + b =~= a);
        assert(sa.last() + b =~= sa.last());
        assert(sa.update(sa.len() - 1, sa.last() + b) =~= sa);
    } else {
        let bd = b.drop_last();
        assert(has_no_separator(bd));
        lemma_split_append_plain(a, bd);
        assert((a + b).drop_last() =~= a + bd);
        assert((a + b).last() == b.last());
        assert(!is_separator(b[b.len() - 1]));
        let p = split_path(a + bd);
        assert((sa.last() + bd).push(b.last()) =~= sa.last() + b);
        assert(p.update(p.len() - 1, p.last().push(b.last())) =~= sa.update(
            sa.len() - 1,
            sa.last() + b,
        ));
    }
}

proof fn lemma_split_join(a: Seq<char>, parts: Seq<Seq<char>>)
    requires
        parts.len() >= 1,
        forall|i: int| 0 <= i < parts.len() ==> has_no_separator(#[trigger] parts[i]),
    ensures
        split_path(a + join(parts, seq!['/'])) == split_path(a).update(
            split_path(a).len() - 1,
            split_path(a).last() + parts[0],
        ) + parts.skip(1),
    decreases parts.len(),
{
    lemma_split_path_nonempty(a);
    let sa = split_path(a);
    let head = sa.update(sa.len() - 1, sa.last() + parts[0]);
    if parts.len() == 1 {
        assert(has_no_separator(parts[0]));
        lemma_split_append_plain(a, parts[0]);
        assert(head + parts.skip(1) =~= head);
    } else {
        let dl = parts.drop_last();
        let last = parts.last();
        assert(forall|i: int| 0 <= i < dl.len() ==> #[trigger] dl[i] == parts[i]);
        lemma_split_join(a, dl);
        let x = a + join(dl, seq!['/']);
        assert(a + join(parts, seq!['/']) =~= x.push('/') + last);
        lemma_split_push_separator(x, '/');
        assert(has_no_separator(parts[parts.len() - 1]));
        lemma_split_append_plain(x.push('/'), last);
        let q = split_path(x.push('/'));
        assert(q.last() + last =~= last);
        assert(q.update(q.len() - 1, q.last() + last) =~= split_path(x).push(last));
        assert(dl[0] == parts[0]);
        assert(head + dl.skip(1) + seq![last] =~= head + parts.skip(1));
    }
}

/// A working path and an object key are the joins of their components by
/// `/`. Split again at `/` and `\`, the object key gives back exactly its
/// components, and the working path an empty first piece (its leading `/`)
/// followed by its components. No component holds a separator, so each one,
/// the file name included, is exactly one segment; and since no component is
/// `.` or `..` (see `lemma_path_components_clean`), no segment refers to the
/// directory itself or climbs out of it.
pub proof fn lemma_paths_split_into_components(
    base: Seq<char>,
    session: Option<Seq<char>>,
    filename: Seq<char>,
)
    ensures
        split_path(join(path_components(base, session, filename), "/"@)) == path_components(
            base,
            session,
            filename,
        ),
        split_path("/"@ + join(path_components(base, session, filename), "/"@)) == seq![
            Seq::<char>::empty(),
        ] + path_components(base, session, filename),
        forall|i: int|
            0 <= i < split_path(join(path_components(base, session, filename), "/"@)).len()
                ==> !is_dot_name(
                #[trigger] split_path(join(path_components(base, session, filename), "/"@))[i],
            ),
{
    reveal_strlit("/");
    assert("/"@ =~= seq!['/']);
    let c = path_components(base, session, filename);
    lemma_path_components_clean(base, session, filename);
    assert forall|i: int| 0 <= i < c.len() implies has_no_separator(#[trigger] c[i]) by {
        lemma_clean_has_no_separator(c[i]);
    }
    let e = Seq::<char>::empty();
    lemma_split_join(e, c);
    assert(e + join(c, seq!['/']) =~= join(c, seq!['/']));
    assert(split_path(e) =~= seq![e]);
    assert(seq![e].update(0, e + c[0]) + c.skip(1) =~= c);
    let slash = seq!['/'];
    lemma_split_join(slash, c);
    assert(slash.drop_last() =~= e);
    assert(split_path(slash) =~= seq![e, e]);
    assert(seq![e, e].update(1, e + c[0]) + c.skip(1) =~= seq![e] + c);
}

/// Paths are split at `/` and `\` and nowhere else: a text without either is
/// one piece, and each of the two characters ends a piece and starts an
/// empty one. So the stored name of a file without either character is that
/// name, trimmed of whitespace and sanitized with the fallback `file`.
pub proof fn lemma_split_only_at_slashes(s: Seq<char>)
    ensures
        (forall|i: int| 0 <= i < s.len() ==> #[trigger] s[i] != '/' && s[i] != '\\') ==> {
            &&& split_path(s) == seq![s]
            &&& sanitized_filename(s) == sanitized_component(trim(s, whitespace()), "file"@)
        },
        split_path(s.push('/')) == split_path(s).push(Seq::<char>::empty()),
        split_path(s.push('\\')) == split_path(s).push(Seq::<char>::empty()),
{
    if forall|i: int| 0 <= i < s.len() ==> #[trigger] s[i] != '/' && s[i] != '\\' {
        assert(has_no_separator(s));
        lemma_split_no_separator(s);
        assert(seq![s].last() == s);
    }
    lemma_split_push_separator(s, '/');
    lemma_split_push_separator(s, '\\');
}

/// A configured path of one piece (no `/` or `\`) gives no component when,
/// trimmed of whitespace, it is empty, `.` or `..`, and otherwise exactly one
/// component: the piece sanitized with the fallback `dir`. In particular a
/// piece that merely begins with `.`, such as `.cache`, is kept.
pub proof fn lemma_single_piece_path(s: Seq<char>)
    requires
        forall|i: int| 0 <= i < s.len() ==> #[trigger] s[i] != '/' && s[i] != '\\',
    ensures
        ({
            let t = trim(s, whitespace());
            t.len() == 0 || t == seq!['.'] || t == seq!['.', '.']
        }) ==> clean_path(s) == Seq::<Seq<char>>::empty(),
        !({
            let t = trim(s, whitespace());
            t.len() == 0 || t == seq!['.'] || t == seq!['.', '.']
        }) ==> clean_path(s) == seq![sanitized_component(s, "dir"@)],
{
    lemma_split_only_at_slashes(s);
    let one = seq![s];
    assert(one.drop_last() =~= Seq::<Seq<char>>::empty());
    assert(one.last() == s);
    assert(clean_pieces(Seq::<Seq<char>>::empty()) == Seq::<Seq<char>>::empty());
    assert(clean_pieces(one.drop_last()) == Seq::<Seq<char>>::empty());
    assert(clean_path(s) == clean_pieces(one));
    assert(keeps_piece(s) == !({
        let t = trim(s, whitespace());
        t.len() == 0 || t == seq!['.'] || t == seq!['.', '.']
    }));
    assert(Seq::<Seq<char>>::empty().push(sanitized_component(s, "dir"@)) =~= seq![
        sanitized_component(s, "dir"@),
    ]);
}

/// Sanitizing keeps every ASCII letter and digit, `-`, `_` and `.`: a
/// component made only of those, not beginning or ending with `_`, and neither
/// `.` nor `..`, is returned unchanged. Conversely, apart from the fallback,
/// a sanitized component holds no other character.
pub proof fn lemma_sanitize_keeps_portable_names(c: Seq<char>, fallback: Seq<char>)
    ensures
        ({
            &&& c.len() > 0
            &&& forall|i: int|
                0 <= i < c.len() ==> {
                    let x = #[trigger] c[i];
                    ('a' <= x && x <= 'z') || ('A' <= x && x <= 'Z') || ('0' <= x && x <= '9')
                        || x == '-' || x == '_' || x == '.'
                }
            &&& c[0] != '_'
            &&& c.last() != '_'
            &&& c != seq!['.']
            &&& c != seq!['.', '.']
        }) ==> sanitized_component(c, fallback) == c,
        sanitized_component(c, fallback) == fallback || forall|i: int|
            0 <= i < sanitized_component(c, fallback).len() ==> {
                let x = #[trigger] sanitized_component(c, fallback)[i];
                ('a' <= x && x <= 'z') || ('A' <= x && x <= 'Z') || ('0' <= x && x <= '9') || x
                    == '-' || x == '_' || x == '.'
            },
{
    lemma_sanitized_component_is_clean(c, fallback);
    let r = sanitized_component(c, fallback);
    if r != fallback {
        assert forall|i: int| 0 <= i < r.len() implies {
            let x = #[trigger] r[i];
            ('a' <= x && x <= 'z') || ('A' <= x && x <= 'Z') || ('0' <= x && x <= '9') || x == '-'
                || x == '_' || x == '.'
        } by {
            assert(is_safe_char(r[i]));
        }
    }
    if c.len() > 0 && (forall|i: int|
        0 <= i < c.len() ==> {
            let x = #[trigger] c[i];
            ('a' <= x && x <= 'z') || ('A' <= x && x <= 'Z') || ('0' <= x && x <= '9') || x == '-'
                || x == '_' || x == '.'
        }) && c[0] != '_' && c.last() != '_' && c != seq!['.'] && c != seq!['.', '.'] {
        assert(replace_unsafe(c) =~= c);
        assert(trim_start(c, underscore()) == c);
        assert(trim_end(c, underscore()) == c);
    }
}

proof fn lemma_split_concat(a: Seq<char>, c: char, b: Seq<char>)
    requires
        is_separator(c),
    ensures
        split_path(a.push(c) + b) == split_path(a) + split_path(b),
    decreases b.len(),
{
    lemma_split_path_nonempty(a);
    lemma_split_path_nonempty(b);
    if b.len() == 0 {
        assert(a.push(c) + b =~= a.push(c));
        lemma_split_push_separator(a, c);
        assert(split_path(b) =~= seq![Seq::<char>::empty()]);
        assert(split_path(a).push(Seq::<char>::empty()) =~= split_path(a) + split_path(b));
    } else {
        let bd = b.drop_last();
        lemma_split_concat(a, c, bd);
        lemma_split_path_nonempty(bd);
        let x = a.push(c) + b;
        assert(x.drop_last() =~= a.push(c) + bd);
        assert(x.last() == b.last());
        let sa = split_path(a);
        let sb = split_path(bd);
        if is_separator(b.last()) {
            assert((sa + sb).push(Seq::<char>::empty()) =~= sa + sb.push(Seq::<char>::empty()));
        } else {
            let st = sa + sb;
            assert(st.last() == sb.last());
            assert(st.update(st.len() - 1, st.last().push(b.last())) =~= sa + sb.update(
                sb.len() - 1,
                sb.last().push(b.last()),
            ));
        }
    }
}

proof fn lemma_clean_pieces_concat(x: Seq<Seq<char>>, y: Seq<Seq<char>>)
    ensures
        clean_pieces(x + y) == clean_pieces(x) + clean_pieces(y),
    decreases y.len(),
{
    if y.len() == 0 {
        assert(x + y =~= x);
        assert(clean_pieces(x) + clean_pieces(y) =~= clean_pieces(x));
    } else {
        lemma_clean_pieces_concat(x, y.drop_last());
        assert((x + y).drop_last() =~= x + y.drop_last());
        assert((x + y).last() == y.last());
        let cx = clean_pieces(x);
        let cy = clean_pieces(y.drop_last());
        let v = sanitized_component(y.last(), "dir"@);
        assert((cx + cy).push(v) =~= cx + cy.push(v));
    }
}

/// A configured path splits at each `/` and `\`, and only what lies between
/// separators matters: the components of `a`, a separator, then `b` are the
/// components of `a` followed by those of `b`.
pub proof fn lemma_clean_path_concat(a: Seq<char>, b: Seq<char>)
    ensures
        clean_path(a.push('/') + b) == clean_path(a) + clean_path(b),
        clean_path(a.push('\\') + b) == clean_path(a) + clean_path(b),
{
    lemma_split_concat(a, '/', b);
    lemma_split_concat(a, '\\', b);
    lemma_clean_pieces_concat(split_path(a), split_path(b));
}

/// The stored name of a file depends only on what follows its last `/` or
/// `\`: whatever directories precede it are ignored.
pub proof fn lemma_filename_ignores_directories(a: Seq<char>, b: Seq<char>)
    ensures
        sanitized_filename(a.push('/') + b) == sanitized_filename(b),
        sanitized_filename(a.push('\\') + b) == sanitized_filename(b),
{
    lemma_split_concat(a, '/', b);
    lemma_split_concat(a, '\\', b);
    lemma_split_path_nonempty(b);
    assert((split_path(a) + split_path(b)).last() == split_path(b).last());
}

/// Unless it is the fallback, a sanitized component is a run of consecutive
/// characters of the input, starting at the returned index, in which every
/// character other than an ASCII letter or digit, `-`, `_` and `.` has become
/// `_`; the characters dropped before and after the run are each `_` or such
/// an unsafe character.
pub proof fn lemma_sanitized_is_replaced_run(s: Seq<char>, fallback: Seq<char>) -> (k: int)
    ensures
        sanitized_component(s, fallback) == fallback || {
            let r = sanitized_component(s, fallback);
            &&& 0 <= k
            &&& k + r.len() <= s.len()
            &&& forall|i: int|
                0 <= i < r.len() ==> {
                    let x = #[trigger] s[k + i];
                    r[i] == if ('a' <= x && x <= 'z') || ('A' <= x && x <= 'Z') || ('0' <= x
                        && x <= '9') || x == '-' || x == '_' || x == '.' {
                        x
                    } else {
                        '_'
                    }
                }
            &&& forall|j: int|
                (0 <= j < k || k + r.len() <= j < s.len()) ==> {
                    let x = #[trigger] s[j];
                    !(('a' <= x && x <= 'z') || ('A' <= x && x <= 'Z') || ('0' <= x && x <= '9')
                        || x == '-' || x == '.')
                }
        },
{
    let m = replace_unsafe(s);
    let k1 = lemma_trim_start_shape(m, underscore());
    let ts = trim_start(m, underscore());
    let k2 = lemma_trim_end_shape(ts, underscore());
    let r = sanitized_component(s, fallback);
    if r != fallback {
        assert(r == ts.subrange(0, k2));
        assert forall|i: int| 0 <= i < r.len() implies {
            let x = #[trigger] s[k1 + i];
            r[i] == if ('a' <= x && x <= 'z') || ('A' <= x && x <= 'Z') || ('0' <= x && x <= '9')
                || x == '-' || x == '_' || x == '.' {
                x
            } else {
                '_'
            }
        } by {
            assert(r[i] == m[k1 + i]);
        }
        assert forall|j: int| (0 <= j < k1 || k1 + r.len() <= j < s.len()) implies {
            let x = #[trigger] s[j];
            !(('a' <= x && x <= 'z') || ('A' <= x && x <= 'Z') || ('0' <= x && x <= '9') || x
                == '-' || x == '.')
        } by {
            if j < k1 {
                assert(m[j] == '_');
            } else {
                assert(ts[j - k1] == m[j]);
                assert(m[j] == '_');
            }
        }
    }
    k1
}

/// The components under a base are those of the base, then one component for
/// the session key when there is one, then exactly one for the file name, in
/// that order. So a working path and an object key for the same session and
/// file agree on everything after their base directories.
pub proof fn lemma_components_layout(
    base: Seq<char>,
    other_base: Seq<char>,
    session: Option<Seq<char>>,
    filename: Seq<char>,
)
    ensures
        path_components(base, session, filename).len() == clean_path(base).len() + (if session
            is Some {
            2int
        } else {
            1int
        }),
        path_components(base, session, filename).take(clean_path(base).len() as int)
            == clean_path(base),
        path_components(base, session, filename).last() == sanitized_filename(filename),
        session matches Some(k) ==> path_components(base, session, filename)[clean_path(
            base,
        ).len() as int] == sanitized_component(k, "session"@),
        path_components(base, session, filename).skip(clean_path(base).len() as int)
            == path_components(other_base, session, filename).skip(
            clean_path(other_base).len() as int,
        ),
{
    let c = path_components(base, session, filename);
    let d = path_components(other_base, session, filename);
    let n = clean_path(base).len() as int;
    let m = clean_path(other_base).len() as int;
    assert(c.take(n) =~= clean_path(base));
    match session {
        Some(k) => {
            assert(c.skip(n) =~= seq![sanitized_component(k, "session"@), sanitized_filename(filename)]);
            assert(d.skip(m) =~= seq![sanitized_component(k, "session"@), sanitized_filename(filename)]);
        },
        None => {
            assert(c.skip(n) =~= seq![sanitized_filename(filename)]);
            assert(d.skip(m) =~= seq![sanitized_filename(filename)]);
        },
    }
}

} // verus!
