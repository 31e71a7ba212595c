//! Lexical path validation.
//!
//! A path is split into components the way `std::path::Path::components`
//! does on Unix: a leading `/` is the root, repeated separators and `.`
//! pieces vanish (except a `.` that begins a relative path), `..` stays a
//! parent marker. Normalization then walks the components: the root resets,
//! `.` is skipped, `..` drops the last name if there is one, a name is pushed.
//! Nothing here touches the file system or resolves symlinks.
use vstd::prelude::*;
use crate::error::{concat, AppError};
use crate::text::{chars_of, string_of};

verus! {

/// The component that stands for the root directory.
pub open spec fn root_c() -> Seq<char> {
    seq!['/']
}

/// The current-directory component.
pub open spec fn dot_c() -> Seq<char> {
    seq!['.']
}

/// The parent-directory component.
pub open spec fn dotdot_c() -> Seq<char> {
    seq!['.', '.']
}

/// The pieces of `s` between separators, empty pieces included.
pub open spec fn segments(s: Seq<char>) -> Seq<Seq<char>>
    decreases s.len(),
{
    if s.len() == 0 {
        seq![Seq::<char>::empty()]
    } else {
        let p = segments(s.drop_last());
        if s.last() == '/' {
            p.push(Seq::<char>::empty())
        } else {
            p.update(p.len() - 1, p[p.len() - 1].push(s.last()))
        }
    }
}

/// The components that a list of pieces contributes: empty pieces and `.`
/// vanish, everything else (`..` included) stays.
pub open spec fn piece_components(segs: Seq<Seq<char>>) -> Seq<Seq<char>>
    decreases segs.len(),
{
    if segs.len() == 0 {
        Seq::empty()
    } else {
        let p = piece_components(segs.drop_last());
        let g = segs.last();
        if g.len() == 0 || g == dot_c() {
            p
        } else {
            p.push(g)
        }
    }
}

/// Whether `s` is absolute (begins with the separator).
pub open spec fn is_rooted(s: Seq<char>) -> bool {
    s.len() > 0 && s[0] == '/'
}

/// The components of a path: the root for an absolute path, a leading `.`
/// for a relative path that starts with one, then the remaining pieces.
pub open spec fn components(s: Seq<char>) -> Seq<Seq<char>> {
    let lead = if is_rooted(s) {
        seq![root_c()]
    } else if segments(s)[0] == dot_c() {
        seq![dot_c()]
    } else {
        Seq::empty()
    };
    lead + piece_components(segments(s))
}

/// One normalization step on (absolute?, names).
pub open spec fn normalize_step(n: (bool, Seq<Seq<char>>), c: Seq<char>) -> (bool, Seq<Seq<char>>) {
    if c == root_c() {
        (true, Seq::empty())
    } else if c == dot_c() {
        n
    } else if c == dotdot_c() {
        if n.1.len() > 0 {
            (n.0, n.1.drop_last())
        } else {
            n
        }
    } else {
        (n.0, n.1.push(c))
    }
}

/// Lexical normalization of a component list, starting from the empty path.
pub open spec fn normalize(cs: Seq<Seq<char>>) -> (bool, Seq<Seq<char>>)
    decreases cs.len(),
{
    if cs.len() == 0 {
        (false, Seq::empty())
    } else {
        normalize_step(normalize(cs.drop_last()), cs.last())
    }
}

/// The components of a normalized path.
pub open spec fn normalized_components(n: (bool, Seq<Seq<char>>)) -> Seq<Seq<char>> {
    (if n.0 {
        seq![root_c()]
    } else {
        Seq::<Seq<char>>::empty()
    }) + n.1
}

/// `p` is a prefix of `s` (component-wise `starts_with`).
pub open spec fn has_prefix(s: Seq<Seq<char>>, p: Seq<Seq<char>>) -> bool {
    p.len() <= s.len() && s.subrange(0, p.len() as int) == p
}

/// Names joined by the separator.
pub open spec fn join_names(names: Seq<Seq<char>>) -> Seq<char>
    decreases names.len(),
{
    if names.len() == 0 {
        Seq::empty()
    } else if names.len() == 1 {
        names[0]
    } else {
        join_names(names.drop_last()) + seq!['/'] + names.last()
    }
}

/// The text of a normalized path.
pub open spec fn render(n: (bool, Seq<Seq<char>>)) -> Seq<char> {
    (if n.0 {
        seq!['/']
    } else {
        Seq::<char>::empty()
    }) + join_names(n.1)
}

/// `base` joined with `requested` (`PathBuf::join`): an absolute request
/// replaces the base, otherwise a separator is inserted when needed.
pub open spec fn join_target(requested: Seq<char>, base: Seq<char>) -> Seq<char> {
    if is_rooted(requested) {
        requested
    } else if base.len() == 0 {
        requested
    } else if base.last() == '/' {
        base + requested
    } else {
        base + seq!['/'] + requested
    }
}

/// The normalized form of `requested` resolved against `base`.
pub open spec fn resolved(requested: Seq<char>, base: Seq<char>) -> (bool, Seq<Seq<char>>) {
    normalize(components(join_target(requested, base)))
}

/// Whether `requested`, resolved against `base`, stays under `base`.
pub open spec fn stays_within(requested: Seq<char>, base: Seq<char>) -> bool {
    has_prefix(normalized_components(resolved(requested, base)), components(base))
}

/// The message for a path that leaves its base.
pub open spec fn outside_message(requested: Seq<char>, base: Seq<char>) -> Seq<char> {
    "Path '"@ + requested + "' resolves outside allowed directory '"@ + base + "'"@
}

/// What `validate_path` answers.
pub open spec fn validate_path_result(requested: Seq<char>, base: Seq<char>) -> Result<
    Seq<char>,
    Seq<char>,
> {
    if requested.contains('\0') {
        Err("Path contains null byte"@)
    } else if stays_within(requested, base) {
        Ok(render(resolved(requested, base)))
    } else {
        Err(outside_message(requested, base))
    }
}

/// A name component: non-empty, no separator, neither `.` nor `..`.
pub open spec fn is_name(g: Seq<char>) -> bool {
    g.len() > 0 && !g.contains('/') && g != dot_c() && g != dotdot_c()
}

proof fn lemma_push_avoid(g: Seq<char>, c: char, x: char)
    requires
        !g.contains(x),
        c != x,
    ensures
        !g.push(c).contains(x),
{
    if g.push(c).contains(x) {
        let k = choose|k: int| 0 <= k < g.push(c).len() && g.push(c)[k] == x;
        if k < g.len() {
            assert(g[k] == x);
        }
    }
}

proof fn lemma_concat_avoid(a: Seq<char>, b: Seq<char>, x: char)
    requires
        !a.contains(x),
        !b.contains(x),
    ensures
        !(a + b).contains(x),
{
    if (a + b).contains(x) {
        let k = choose|k: int| 0 <= k < (a + b).len() && (a + b)[k] == x;
        if k < a.len() {
            assert(a[k] == x);
        } else {
            assert(b[k - a.len()] == x);
        }
    }
}

proof fn lemma_segments_len(s: Seq<char>)
    ensures
        segments(s).len() >= 1,
    decreases s.len(),
{
    if s.len() > 0 {
        lemma_segments_len(s.drop_last());
    }
}

/// No piece holds a separator, nor any character that `s` lacks.
proof fn lemma_segments_avoid(s: Seq<char>, x: char)
    requires
        x == '/' || !s.contains(x),
    ensures
        forall|i: int| 0 <= i < segments(s).len() ==> !(#[trigger] segments(s)[i]).contains(x),
    decreases s.len(),
{
    if s.len() > 0 {
        let d = s.drop_last();
        if x != '/' {
            assert(!d.contains(x)) by {
                if d.contains(x) {
                    let k = choose|k: int| 0 <= k < d.len() && d[k] == x;
                    assert(s[k] == x);
                }
            }
        }
        lemma_segments_avoid(d, x);
        lemma_segments_len(d);
        let p = segments(d);
        assert(s[s.len() - 1] == s.last());
        if s.last() != '/' {
            lemma_push_avoid(p[p.len() - 1], s.last(), x);
        }
    } else {
        assert(!Seq::<char>::empty().contains(x));
    }
}

/// A separator-free text is a single piece.
proof fn lemma_segments_plain(s: Seq<char>)
    requires
        !s.contains('/'),
    ensures
        segments(s) == seq![s],
    decreases s.len(),
{
    if s.len() > 0 {
        let d = s.drop_last();
        assert(!d.contains('/')) by {
            if d.contains('/') {
                let k = choose|k: int| 0 <= k < d.len() && d[k] == '/';
                assert(s[k] == '/');
            }
        }
        lemma_segments_plain(d);
        assert(s[s.len() - 1] == s.last());
        assert(d.push(s.last()) =~= s);
        assert(segments(s) =~= seq![s]);
    } else {
        assert(s =~= Seq::<char>::empty());
        assert(segments(s) =~= seq![s]);
    }
}

/// Splitting at a separator splits the pieces.
proof fn lemma_segments_split(a: Seq<char>, b: Seq<char>)
    ensures
        segments(a + seq!['/'] + b) == segments(a) + segments(b),
    decreases b.len(),
{
    let s = a + seq!['/'] + b;
    lemma_segments_len(a);
    if b.len() == 0 {
        assert(s.drop_last() =~= a);
        assert(segments(s) =~= segments(a) + segments(b));
    } else {
        let b2 = b.drop_last();
        lemma_segments_split(a, b2);
        lemma_segments_len(b2);
        assert(s.drop_last() =~= a + seq!['/'] + b2);
        assert(s.last() == b.last());
        assert(segments(s) =~= segments(a) + segments(b));
    }
}

/// The pieces of names joined by separators are the names.
proof fn lemma_join_segments(names: Seq<Seq<char>>)
    requires
        names.len() >= 1,
        forall|i: int| 0 <= i < names.len() ==> !(#[trigger] names[i]).contains('/'),
    ensures
        segments(join_names(names)) == names,
    decreases names.len(),
{
    if names.len() == 1 {
        lemma_segments_plain(names[0]);
        assert(seq![names[0]] =~= names);
    } else {
        let d = names.drop_last();
        lemma_join_segments(d);
        lemma_segments_split(join_names(d), names.last());
        lemma_segments_plain(names.last());
        assert(d + seq![names.last()] =~= names);
    }
}

proof fn lemma_join_avoid(names: Seq<Seq<char>>, x: char)
    requires
        x != '/',
        forall|i: int| 0 <= i < names.len() ==> !(#[trigger] names[i]).contains(x),
    ensures
        !join_names(names).contains(x),
    decreases names.len(),
{
    if names.len() == 0 {
        assert(!Seq::<char>::empty().contains(x));
    } else if names.len() == 1 {
    } else {
        let d = names.drop_last();
        lemma_join_avoid(d, x);
        assert(!seq!['/'].contains(x)) by {
            if seq!['/'].contains(x) {
                assert(seq!['/'][0] == x);
            }
        }
        lemma_concat_avoid(join_names(d), seq!['/'], x);
        assert(!names.last().contains(x)) by {
            assert(names[names.len() - 1] == names.last());
        }
        lemma_concat_avoid(join_names(d) + seq!['/'], names.last(), x);
    }
}

proof fn lemma_pieces_concat(a: Seq<Seq<char>>, b: Seq<Seq<char>>)
    ensures
        piece_components(a + b) == piece_components(a) + piece_components(b),
    decreases b.len(),
{
    if b.len() == 0 {
        assert(a + b =~= a);
        assert(piece_components(a) + piece_components(b) =~= piece_components(a));
    } else {
        let b2 = b.drop_last();
        lemma_pieces_concat(a, b2);
        assert((a + b).drop_last() =~= a + b2);
        assert((a + b).last() == b.last());
        assert(piece_components(a + b) =~= piece_components(a) + piece_components(b));
    }
}

proof fn lemma_pieces_of_names(names: Seq<Seq<char>>)
    requires
        forall|i: int| 0 <= i < names.len() ==> is_name(#[trigger] names[i]),
    ensures
        piece_components(names) == names,
    decreases names.len(),
{
    if names.len() > 0 {
        lemma_pieces_of_names(names.drop_last());
        assert(names[names.len() - 1] == names.last());
        assert(names.drop_last().push(names.last()) =~= names);
    }
}

/// Every piece component is non-empty, not `.`, and avoids what the pieces avoid.
proof fn lemma_pieces_shape(segs: Seq<Seq<char>>, x: char)
    requires
        forall|i: int| 0 <= i < segs.len() ==> !(#[trigger] segs[i]).contains(x),
    ensures
        forall|i: int|
            0 <= i < piece_components(segs).len() ==> {
                let g = #[trigger] piece_components(segs)[i];
                g.len() > 0 && g != dot_c() && !g.contains(x)
            },
    decreases segs.len(),
{
    if segs.len() > 0 {
        let d = segs.drop_last();
        assert forall|i: int| 0 <= i < d.len() implies !(#[trigger] d[i]).contains(x) by {
            assert(d[i] == segs[i]);
        }
        lemma_pieces_shape(d, x);
        assert(segs[segs.len() - 1] == segs.last());
        let p = piece_components(d);
        let g = segs.last();
        assert forall|i: int| 0 <= i < piece_components(segs).len() implies {
            let h = #[trigger] piece_components(segs)[i];
            h.len() > 0 && h != dot_c() && !h.contains(x)
        } by {
            if i < p.len() {
                assert(piece_components(segs)[i] == p[i]);
            } else {
                assert(piece_components(segs)[i] == g);
            }
        }
    }
}

/// The components of any text: the root, `.`, or non-empty pieces that avoid
/// the separator and whatever the text avoids.
proof fn lemma_components_shape(s: Seq<char>, x: char)
    requires
        x == '/' || !s.contains(x),
    ensures
        forall|i: int|
            0 <= i < components(s).len() ==> {
                let c = #[trigger] components(s)[i];
                c == root_c() || c == dot_c() || (c.len() > 0 && !c.contains('/') && !c.contains(
                    x,
                ))
            },
{
    lemma_segments_avoid(s, x);
    lemma_segments_avoid(s, '/');
    lemma_pieces_shape(segments(s), x);
    lemma_pieces_shape(segments(s), '/');
}

/// Normalization keeps only name components, each avoiding what its input avoids.
proof fn lemma_normalize_names(cs: Seq<Seq<char>>, x: char)
    requires
        forall|i: int|
            0 <= i < cs.len() ==> {
                let c = #[trigger] cs[i];
                c == root_c() || c == dot_c() || (c.len() > 0 && !c.contains('/') && !c.contains(
                    x,
                ))
            },
    ensures
        forall|i: int|
            0 <= i < normalize(cs).1.len() ==> is_name(#[trigger] normalize(cs).1[i])
                && !normalize(cs).1[i].contains(x),
    decreases cs.len(),
{
    if cs.len() > 0 {
        let d = cs.drop_last();
        assert forall|i: int| 0 <= i < d.len() implies {
            let c = #[trigger] d[i];
            c == root_c() || c == dot_c() || (c.len() > 0 && !c.contains('/') && !c.contains(x))
        } by {
            assert(d[i] == cs[i]);
        }
        lemma_normalize_names(d, x);
        let c = cs.last();
        assert(cs[cs.len() - 1] == c);
        let m = normalize(d).1;
        assert forall|i: int| 0 <= i < normalize(cs).1.len() implies is_name(
            #[trigger] normalize(cs).1[i],
        ) && !normalize(cs).1[i].contains(x) by {
            if c == root_c() {
            } else if c == dot_c() {
            } else if c == dotdot_c() {
                if m.len() > 0 {
                    assert(normalize(cs).1[i] == m[i]);
                }
            } else {
                if i < m.len() {
                    assert(normalize(cs).1[i] == m[i]);
                } else {
                    assert(normalize(cs).1[i] == c);
                }
            }
        }
    }
}

/// Appending names to a component list appends them to its normalization.
proof fn lemma_normalize_append_names(pre: Seq<Seq<char>>, names: Seq<Seq<char>>)
    requires
        forall|i: int| 0 <= i < names.len() ==> is_name(#[trigger] names[i]),
    ensures
        normalize(pre + names) == (normalize(pre).0, normalize(pre).1 + names),
    decreases names.len(),
{
    if names.len() == 0 {
        assert(pre + names =~= pre);
        assert(normalize(pre).1 + names =~= normalize(pre).1);
    } else {
        let d = names.drop_last();
        assert forall|i: int| 0 <= i < d.len() implies is_name(#[trigger] d[i]) by {
            assert(d[i] == names[i]);
        }
        lemma_normalize_append_names(pre, d);
        assert(root_c().contains('/')) by {
            assert(root_c()[0] == '/');
        }
        assert((pre + names).drop_last() =~= pre + d);
        assert((pre + names).last() == names.last());
        assert(names[names.len() - 1] == names.last());
        assert(normalize(pre).1 + d + seq![names.last()] =~= normalize(pre).1 + names);
        assert((normalize(pre).1 + d).push(names.last()) =~= normalize(pre).1 + names);
    }
}

/// A list that starts with the root normalizes to an absolute path.
proof fn lemma_normalize_rooted(cs: Seq<Seq<char>>)
    requires
        cs.len() > 0,
        cs[0] == root_c(),
    ensures
        normalize(cs).0,
    decreases cs.len(),
{
    if cs.len() > 1 {
        lemma_normalize_rooted(cs.drop_last());
    } else {
        assert(cs.drop_last() =~= Seq::<Seq<char>>::empty());
    }
}

/// Re-reading a normalized path gives back its components.
proof fn lemma_components_of_render(n: (bool, Seq<Seq<char>>))
    requires
        forall|i: int| 0 <= i < n.1.len() ==> is_name(#[trigger] n.1[i]),
    ensures
        components(render(n)) == normalized_components(n),
{
    let names = n.1;
    let e = Seq::<char>::empty();
    assert(segments(e) =~= seq![e]);
    assert(piece_components(seq![e]) =~= Seq::<Seq<char>>::empty()) by {
        reveal_with_fuel(piece_components, 2);
        assert(seq![e].drop_last() =~= Seq::<Seq<char>>::empty());
    }
    if names.len() > 0 {
        lemma_join_segments(names);
        lemma_pieces_of_names(names);
    }
    if n.0 {
        let r = render(n);
        assert(r =~= e + seq!['/'] + join_names(names));
        lemma_segments_split(e, join_names(names));
        lemma_pieces_concat(seq![e], segments(join_names(names)));
        if names.len() == 0 {
            assert(join_names(names) =~= e);
            lemma_pieces_concat(seq![e], seq![e]);
            assert(seq![e] + seq![e] =~= segments(r));
        }
        assert(components(r) =~= normalized_components(n));
    } else {
        let r = render(n);
        assert(r =~= join_names(names));
        if names.len() == 0 {
            assert(r =~= e);
            assert(components(r) =~= normalized_components(n));
        } else {
            if is_rooted(r) {
                let rest = r.subrange(1, r.len() as int);
                assert(r =~= e + seq!['/'] + rest);
                lemma_segments_split(e, rest);
                assert(segments(r)[0] == e);
                assert(names[0].len() > 0);
            }
            assert(segments(r)[0] == names[0]);
            assert(components(r) =~= normalized_components(n));
        }
    }
}

/// Normalizing the components of a normalized path changes nothing.
proof fn lemma_normalize_normalized(n: (bool, Seq<Seq<char>>))
    requires
        forall|i: int| 0 <= i < n.1.len() ==> is_name(#[trigger] n.1[i]),
    ensures
        normalize(normalized_components(n)) == n,
{
    let lead = if n.0 {
        seq![root_c()]
    } else {
        Seq::<Seq<char>>::empty()
    };
    lemma_normalize_append_names(lead, n.1);
    if n.0 {
        assert(lead.drop_last() =~= Seq::<Seq<char>>::empty());
    }
    assert(normalize(lead).1 + n.1 =~= n.1);
}

/// Law: a path that `validate_path` accepts lies under the base, component
/// by component, and holds no `.` or `..` component.
pub proof fn law_validated_path_is_contained(requested: Seq<char>, base: Seq<char>)
    ensures
        validate_path_result(requested, base) matches Ok(p) ==> {
            &&& has_prefix(components(p), components(base))
            &&& forall|i: int|
                0 <= i < components(p).len() ==> #[trigger] components(p)[i] != dotdot_c()
                    && components(p)[i] != dot_c()
        },
{
    if let Ok(p) = validate_path_result(requested, base) {
        let n = resolved(requested, base);
        lemma_components_shape(join_target(requested, base), '/');
        lemma_normalize_names(components(join_target(requested, base)), '/');
        lemma_components_of_render(n);
    }
}

/// Law: validating an accepted path again, against an absolute base free of
/// null bytes, accepts it unchanged.
pub proof fn law_validate_path_idempotent(requested: Seq<char>, base: Seq<char>)
    requires
        is_rooted(base),
        !base.contains('\0'),
    ensures
        validate_path_result(requested, base) matches Ok(p) ==> validate_path_result(p, base)
            == Ok::<Seq<char>, Seq<char>>(p),
{
    if let Ok(p) = validate_path_result(requested, base) {
        let t = join_target(requested, base);
        let n = resolved(requested, base);
        assert(!t.contains('\0')) by {
            assert(!seq!['/'].contains('\0')) by {
                if seq!['/'].contains('\0') {
                    assert(seq!['/'][0] == '\0');
                }
            }
            if !is_rooted(requested) && base.len() > 0 {
                lemma_concat_avoid(base, seq!['/'], '\0');
                lemma_concat_avoid(base + seq!['/'], requested, '\0');
                lemma_concat_avoid(base, requested, '\0');
            }
        }
        assert(is_rooted(t));
        lemma_components_shape(t, '\0');
        lemma_components_shape(t, '/');
        assert(components(t)[0] == root_c());
        lemma_normalize_rooted(components(t));
        lemma_normalize_names(components(t), '\0');
        lemma_normalize_names(components(t), '/');
        lemma_components_of_render(n);
        lemma_normalize_normalized(n);
        assert(p == render(n));
        assert(!p.contains('\0')) by {
            lemma_join_avoid(n.1, '\0');
            assert(!seq!['/'].contains('\0')) by {
                if seq!['/'].contains('\0') {
                    assert(seq!['/'][0] == '\0');
                }
            }
            lemma_concat_avoid(seq!['/'], join_names(n.1), '\0');
        }
        assert(p =~= seq!['/'] + join_names(n.1));
        assert(is_rooted(p));
        assert(join_target(p, base) == p);
    }
}

/// A `Result` of strings, by the characters it holds.
pub open spec fn text_result(r: Result<String, String>) -> Result<Seq<char>, Seq<char>> {
    match r {
        Ok(s) => Ok(s@),
        Err(e) => Err(e@),
    }
}

/// Views of a list of character vectors.
pub open spec fn views(v: Seq<Vec<char>>) -> Seq<Seq<char>> {
    v.map_values(|x: Vec<char>| x@)
}

fn copy_chars(v: &Vec<char>) -> (r: Vec<char>)
    ensures
        r@ == v@,
{
    let mut r: Vec<char> = Vec::new();
    let mut i: usize = 0;
    while i < v.len()
        invariant
            i <= v.len(),
            r@ == v@.take(i as int),
        decreases v.len() - i,
    {
        r.push(v[i]);
        assert(v@.take(i as int).push(v@[i as int]) =~= v@.take(i + 1));
        i += 1;
    }
    assert(v@.take(v.len() as int) =~= v@);
    r
}

fn chars_eq(a: &Vec<char>, b: &Vec<char>) -> (r: bool)
    ensures
        r == (a@ == b@),
{
    if a.len() != b.len() {
        return false;
    }
    let mut i: usize = 0;
    while i < a.len()
        invariant
            i <= a.len(),
            a.len() == b.len(),
            forall|k: int| 0 <= k < i ==> a@[k] == b@[k],
        decreases a.len() - i,
    {
        if a[i] != b[i] {
            return false;
        }
        i += 1;
    }
    assert(a@ =~= b@);
    true
}

fn is_single(v: &Vec<char>, c: char) -> (r: bool)
    ensures
        r == (v@ == seq![c]),
{
    let r = v.len() == 1 && v[0] == c;
    if v.len() == 1 {
        assert(r ==> v@ =~= seq![c]);
    }
    r
}

fn is_dotdot(v: &Vec<char>) -> (r: bool)
    ensures
        r == (v@ == dotdot_c()),
{
    let r = v.len() == 2 && v[0] == '.' && v[1] == '.';
    if v.len() == 2 {
        assert(r ==> v@ =~= dotdot_c());
    }
    r
}

fn contains_char(v: &Vec<char>, c: char) -> (r: bool)
    ensures
        r == v@.contains(c),
{
    let mut i: usize = 0;
    while i < v.len()
        invariant
            i <= v.len(),
            forall|k: int| 0 <= k < i ==> v@[k] != c,
        decreases v.len() - i,
    {
        if v[i] == c {
            assert(v@[i as int] == c);
            return true;
        }
        i += 1;
    }
    false
}

fn append_chars(out: &mut Vec<char>, v: &Vec<char>)
    ensures
        final(out)@ == old(out)@ + v@,
{
    let ghost start = out@;
    let mut i: usize = 0;
    while i < v.len()
        invariant
            i <= v.len(),
            out@ == start + v@.take(i as int),
        decreases v.len() - i,
    {
        out.push(v[i]);
        assert(start + v@.take(i as int).push(v@[i as int]) =~= start + v@.take(i + 1));
        i += 1;
    }
    assert(v@.take(v.len() as int) =~= v@);
}

/// The characters of `base` joined with those of `requested`.
fn join_target_chars(requested: &Vec<char>, base: &Vec<char>) -> (t: Vec<char>)
    ensures
        t@ == join_target(requested@, base@),
{
    if requested.len() > 0 && requested[0] == '/' {
        copy_chars(requested)
    } else if base.len() == 0 {
        copy_chars(requested)
    } else {
        let mut t = copy_chars(base);
        if base[base.len() - 1] != '/' {
            t.push('/');
        }
        append_chars(&mut t, requested);
        t
    }
}

/// The components of the path whose characters are `t`.
fn path_components(t: &Vec<char>) -> (cs: Vec<Vec<char>>)
    ensures
        views(cs@) == components(t@),
{
    let ghost mut done: Seq<Seq<char>> = Seq::empty();
    let mut comps: Vec<Vec<char>> = Vec::new();
    let mut cur: Vec<char> = Vec::new();
    let mut seen_sep = false;
    let mut first_dot = false;
    let mut i: usize = 0;
    while i < t.len()
        invariant
            i <= t.len(),
            done.push(cur@) == segments(t@.take(i as int)),
            views(comps@) == piece_components(done),
            seen_sep == (done.len() > 0),
            seen_sep ==> first_dot == (done[0] == dot_c()),
        decreases t.len() - i,
    {
        let c = t[i];
        assert(t@.take(i + 1).drop_last() =~= t@.take(i as int));
        if c == '/' {
            if !seen_sep {
                first_dot = is_single(&cur, '.');
                seen_sep = true;
            }
            let keep = cur.len() > 0 && !is_single(&cur, '.');
            proof {
                assert(piece_components(done.push(cur@)).len() >= 0);
                assert(done.push(cur@).drop_last() =~= done);
            }
            if keep {
                comps.push(copy_chars(&cur));
                assert(views(comps@) =~= piece_components(done).push(cur@));
            }
            proof {
                done = done.push(cur@);
            }
            cur = Vec::new();
            assert(done.push(cur@) =~= segments(t@.take(i + 1)));
        } else {
            let ghost before = cur@;
            cur.push(c);
            assert(done.push(cur@) =~= segments(t@.take(i as int)).update(
                done.len() as int,
                before.push(c),
            ));
        }
        i += 1;
    }
    assert(t@.take(t.len() as int) =~= t@);
    let ghost segs = done.push(cur@);
    assert(segs.drop_last() =~= done);
    if !seen_sep {
        first_dot = is_single(&cur, '.');
    }
    if cur.len() > 0 && !is_single(&cur, '.') {
        comps.push(copy_chars(&cur));
        assert(views(comps@) =~= piece_components(done).push(cur@));
    }
    assert(views(comps@) == piece_components(segments(t@)));
    assert(first_dot == (segments(t@)[0] == dot_c()));
    let mut out: Vec<Vec<char>> = Vec::new();
    if t.len() > 0 && t[0] == '/' {
        let rv = vec!['/'];
        assert(rv@ =~= root_c());
        out.push(rv);
        assert(views(out@) =~= seq![root_c()]);
    } else if first_dot {
        let dv = vec!['.'];
        assert(dv@ =~= dot_c());
        out.push(dv);
        assert(views(out@) =~= seq![dot_c()]);
    } else {
        assert(views(out@) =~= Seq::<Seq<char>>::empty());
    }
    let ghost lead = views(out@);
    let mut j: usize = 0;
    while j < comps.len()
        invariant
            j <= comps.len(),
            views(out@) == lead + views(comps@).take(j as int),
        decreases comps.len() - j,
    {
        let ghost before = out@;
        out.push(copy_chars(&comps[j]));
        assert(views(out@) =~= views(before).push(comps@[j as int]@));
        assert(views(comps@).take(j + 1) =~= views(comps@).take(j as int).push(comps@[j as int]@));
        assert(views(out@) =~= lead + views(comps@).take(j + 1));
        j += 1;
    }
    assert(views(comps@).take(comps.len() as int) =~= views(comps@));
    assert(views(out@) =~= components(t@));
    out
}

/// Lexical normalization of a component list.
fn normalize_components(cs: &Vec<Vec<char>>) -> (r: (bool, Vec<Vec<char>>))
    ensures
        (r.0, views(r.1@)) == normalize(views(cs@)),
{
    let mut rooted = false;
    let mut names: Vec<Vec<char>> = Vec::new();
    let mut j: usize = 0;
    while j < cs.len()
        invariant
            j <= cs.len(),
            (rooted, views(names@)) == normalize(views(cs@).take(j as int)),
        decreases cs.len() - j,
    {
        let c = &cs[j];
        assert(views(cs@).take(j + 1).drop_last() =~= views(cs@).take(j as int));
        if is_single(c, '/') {
            rooted = true;
            names = Vec::new();
            assert(views(names@) =~= Seq::<Seq<char>>::empty());
        } else if is_single(c, '.') {
        } else if is_dotdot(c) {
            if names.len() > 0 {
                names.pop();
                assert(views(names@) =~= normalize(views(cs@).take(j as int)).1.drop_last());
            }
        } else {
            names.push(copy_chars(c));
            assert(views(names@) =~= normalize(views(cs@).take(j as int)).1.push(c@));
        }
        j += 1;
    }
    assert(views(cs@).take(cs.len() as int) =~= views(cs@));
    (rooted, names)
}

/// Whether the components of the normalized path (`rooted`, `names`) begin with `base`.
fn starts_with_components(rooted: bool, names: &Vec<Vec<char>>, base: &Vec<Vec<char>>) -> (r:
    bool)
    ensures
        r == has_prefix(normalized_components((rooted, views(names@))), views(base@)),
{
    let mut full: Vec<Vec<char>> = Vec::new();
    if rooted {
        let rv = vec!['/'];
        assert(rv@ =~= root_c());
        full.push(rv);
        assert(views(full@) =~= seq![root_c()]);
    } else {
        assert(views(full@) =~= Seq::<Seq<char>>::empty());
    }
    let ghost lead = views(full@);
    let mut j: usize = 0;
    while j < names.len()
        invariant
            j <= names.len(),
            views(full@) == lead + views(names@).take(j as int),
        decreases names.len() - j,
    {
        let ghost before = full@;
        full.push(copy_chars(&names[j]));
        assert(views(full@) =~= views(before).push(names@[j as int]@));
        assert(views(names@).take(j + 1) =~= views(names@).take(j as int).push(names@[j as int]@));
        assert(views(full@) =~= lead + views(names@).take(j + 1));
        j += 1;
    }
    assert(views(names@).take(names.len() as int) =~= views(names@));
    assert(views(full@) =~= normalized_components((rooted, views(names@))));
    if base.len() > full.len() {
        return false;
    }
    let mut k: usize = 0;
    while k < base.len()
        invariant
            k <= base.len(),
            base.len() <= full.len(),
            views(full@) == normalized_components((rooted, views(names@))),
            forall|m: int| 0 <= m < k ==> views(full@)[m] == views(base@)[m],
        decreases base.len() - k,
    {
        if !chars_eq(&full[k], &base[k]) {
            assert(views(full@).subrange(0, base.len() as int)[k as int] != views(base@)[k as int]);
            return false;
        }
        k += 1;
    }
    assert(views(full@).subrange(0, base.len() as int) =~= views(base@));
    true
}

/// The characters of the normalized path (`rooted`, `names`).
fn render_chars(rooted: bool, names: &Vec<Vec<char>>) -> (out: Vec<char>)
    ensures
        out@ == render((rooted, views(names@))),
{
    let mut out: Vec<char> = Vec::new();
    if rooted {
        out.push('/');
    }
    let ghost lead = out@;
    let mut j: usize = 0;
    while j < names.len()
        invariant
            j <= names.len(),
            out@ == lead + join_names(views(names@).take(j as int)),
        decreases names.len() - j,
    {
        let ghost before = out@;
        assert(views(names@).take(j + 1).drop_last() =~= views(names@).take(j as int));
        if j > 0 {
            out.push('/');
        }
        append_chars(&mut out, &names[j]);
        if j == 0 {
            assert(out@ =~= lead + join_names(views(names@).take(j + 1)));
        } else {
            assert(out@ =~= lead + join_names(views(names@).take(j + 1)));
        }
        j += 1;
    }
    assert(views(names@).take(names.len() as int) =~= views(names@));
    out
}

/// Checks that `requested` resolves, lexically, to a path under `base`, and
/// returns that normalized path.
///
/// A null byte is refused; a relative request is resolved against `base`;
/// `.` and `..` are folded away without consulting the file system; the
/// result must have the components of `base` as a prefix (so `/workspace2`
/// is not under `/workspace`). Symlinks are not resolved.
pub fn validate_path(requested: &str, base: &str) -> (r: Result<String, String>)
    ensures
        text_result(r) == validate_path_result(requested@, base@),
{
    let req = chars_of(requested);
    if contains_char(&req, '\0') {
        return Err("Path contains null byte".to_owned());
    }
    let b = chars_of(base);
    let target = join_target_chars(&req, &b);
    let comps = path_components(&target);
    let (rooted, names) = normalize_components(&comps);
    let base_comps = path_components(&b);
    if starts_with_components(rooted, &names, &base_comps) {
        Ok(string_of(&render_chars(rooted, &names)))
    } else {
        let mut msg = concat("Path '", requested);
        msg.append("' resolves outside allowed directory '");
        msg.append(base);
        msg.append("'");
        Err(msg)
    }
}

/// `base` joined with `name` (`Path::join`).
pub fn join_path(base: &str, name: &str) -> (p: String)
    ensures
        p@ == join_target(name@, base@),
{
    string_of(&join_target_chars(&chars_of(name), &chars_of(base)))
}

/// Whether two paths have the same components (how `PathBuf`'s `==` compares).
pub fn same_path(a: &str, b: &str) -> (r: bool)
    ensures
        r == (components(a@) == components(b@)),
{
    let x = path_components(&chars_of(a));
    let y = path_components(&chars_of(b));
    if x.len() != y.len() {
        assert(views(x@).len() == x@.len());
        return false;
    }
    let mut i: usize = 0;
    while i < x.len()
        invariant
            i <= x.len(),
            x.len() == y.len(),
            views(x@) == components(a@),
            views(y@) == components(b@),
            forall|k: int| 0 <= k < i ==> views(x@)[k] == views(y@)[k],
        decreases x.len() - i,
    {
        if !chars_eq(&x[i], &y[i]) {
            assert(views(x@)[i as int] != views(y@)[i as int]);
            return false;
        }
        i += 1;
    }
    assert(views(x@) =~= views(y@));
    true
}

/// Whether the sandbox API accepts `path` for forwarding to the guest: no null
/// byte, and once normalized it lies under `/workspace`.
pub open spec fn sandbox_path_accepted(path: Seq<char>) -> bool {
    !path.contains('\0') && has_prefix(
        normalized_components(normalize(components(path))),
        components("/workspace"@),
    )
}

/// Checks, before a path crosses to the guest, that it names something under
/// `/workspace` (relative paths are refused). The guest checks again.
pub fn validate_sandbox_path(path: &str) -> (r: Result<(), AppError>)
    ensures
        r is Ok <==> sandbox_path_accepted(path@),
        path@.contains('\0') ==> (r matches Err(e) && e@ == (400u16, "Path contains null byte"@)),
        !path@.contains('\0') && !sandbox_path_accepted(path@) ==> (r matches Err(e) && e@ == (
            400u16,
            "Path must be under /workspace, got: "@ + path@,
        )),
{
    let p = chars_of(path);
    if contains_char(&p, '\0') {
        return Err(AppError::BadRequest("Path contains null byte".to_owned()));
    }
    let comps = path_components(&p);
    let (rooted, names) = normalize_components(&comps);
    let ws = chars_of("/workspace");
    let base_comps = path_components(&ws);
    if !starts_with_components(rooted, &names, &base_comps) {
        return Err(AppError::BadRequest(concat("Path must be under /workspace, got: ", path)));
    }
    Ok(())
}

/// Normalizing components none of which is the root gives a relative path.
proof fn lemma_normalize_unrooted(cs: Seq<Seq<char>>)
    requires
        forall|i: int| 0 <= i < cs.len() ==> #[trigger] cs[i] != root_c(),
    ensures
        !normalize(cs).0,
    decreases cs.len(),
{
    if cs.len() > 0 {
        let d = cs.drop_last();
        assert forall|i: int| 0 <= i < d.len() implies #[trigger] d[i] != root_c() by {
            assert(d[i] == cs[i]);
        }
        lemma_normalize_unrooted(d);
        assert(cs[cs.len() - 1] == cs.last());
    }
}

/// Law: the daemon's check and the guest's check against `/workspace` agree:
/// the daemon accepts a path exactly when it is absolute and the guest
/// accepts it. A relative path, which the guest would resolve under its
/// workspace, the daemon refuses.
pub proof fn law_sandbox_check_agrees_with_guest(path: Seq<char>)
    ensures
        sandbox_path_accepted(path) <==> (is_rooted(path) && validate_path_result(
            path,
            "/workspace"@,
        ) is Ok),
{
    if !is_rooted(path) {
        reveal_strlit("/workspace");
        let cs = components(path);
        let segs = segments(path);
        lemma_segments_avoid(path, '/');
        lemma_pieces_shape(segs, '/');
        assert(root_c().contains('/')) by {
            assert(root_c()[0] == '/');
        }
        let lead = if segs[0] == dot_c() {
            seq![dot_c()]
        } else {
            Seq::<Seq<char>>::empty()
        };
        assert(cs == lead + piece_components(segs));
        assert forall|i: int| 0 <= i < cs.len() implies {
            let c = #[trigger] cs[i];
            c != root_c() && (c == dot_c() || (c.len() > 0 && !c.contains('/')))
        } by {
            if i < lead.len() {
                assert(cs[i] == dot_c());
                assert(dot_c() != root_c()) by {
                    assert(dot_c()[0] != root_c()[0]);
                }
            } else {
                assert(cs[i] == piece_components(segs)[i - lead.len()]);
            }
        }
        lemma_normalize_unrooted(cs);
        lemma_normalize_names(cs, '/');
        let n = normalize(cs);
        let nc = normalized_components(n);
        assert(nc =~= n.1);
        let ws = components("/workspace"@);
        assert(is_rooted("/workspace"@));
        assert(ws[0] == root_c());
        if has_prefix(nc, ws) {
            assert(nc.subrange(0, ws.len() as int)[0] == ws[0]);
            assert(nc[0] == root_c());
            assert(is_name(n.1[0]));
            assert(false);
        }
    }
}

} // verus!
