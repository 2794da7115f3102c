//! Relative key paths: their components, their normal form, and the calls
//! into `relative_path` that compute on them.
use relative_path::{RelativePath, RelativePathBuf};
use std::cmp::Ordering;
use vstd::prelude::*;

verus! {

/// `x` holds no separator `/`.
pub open spec fn no_sep(x: Seq<char>) -> bool {
    forall|i: int| 0 <= i < x.len() ==> x[i] != '/'
}

/// A component as the splitter yields it: non-empty and without `/`.
pub open spec fn plain(x: Seq<char>) -> bool {
    x.len() > 0 && no_sep(x)
}

pub open spec fn dot() -> Seq<char> {
    seq!['.']
}

pub open spec fn dotdot() -> Seq<char> {
    seq!['.', '.']
}

/// A segment of a normalized path: plain, and neither `.` nor `..`.
pub open spec fn valid_segment(x: Seq<char>) -> bool {
    plain(x) && x != dot() && x != dotdot()
}

/// Splits `s` on `/`, dropping empty pieces; `cur` is the piece read so far.
pub open spec fn comps_from(s: Seq<char>, cur: Seq<char>) -> Seq<Seq<char>>
    decreases s.len(),
{
    if s.len() == 0 {
        if cur.len() == 0 {
            seq![]
        } else {
            seq![cur]
        }
    } else if s[0] == '/' {
        if cur.len() == 0 {
            comps_from(s.drop_first(), cur)
        } else {
            seq![cur] + comps_from(s.drop_first(), seq![])
        }
    } else {
        comps_from(s.drop_first(), cur.push(s[0]))
    }
}

/// The components of a path text, in order.
pub open spec fn components(s: Seq<char>) -> Seq<Seq<char>> {
    comps_from(s, seq![])
}

/// Segments joined by `/`.
pub open spec fn join(segs: Seq<Seq<char>>) -> Seq<char>
    decreases segs.len(),
{
    if segs.len() == 0 {
        seq![]
    } else if segs.len() == 1 {
        segs[0]
    } else {
        segs[0] + seq!['/'] + join(segs.drop_first())
    }
}

/// Applies components to a stack of segments: `.` is skipped, `..` removes
/// the last segment, or is kept where there is none (or only `..`) to remove.
pub open spec fn resolve(stack: Seq<Seq<char>>, comps: Seq<Seq<char>>) -> Seq<Seq<char>>
    decreases comps.len(),
{
    if comps.len() == 0 {
        stack
    } else {
        let c = comps[0];
        let next = if c == dot() {
            stack
        } else if c == dotdot() {
            if stack.len() == 0 || stack.last() == dotdot() {
                stack.push(c)
            } else {
                stack.drop_last()
            }
        } else {
            stack.push(c)
        };
        resolve(next, comps.drop_first())
    }
}

/// The normal form computed by `relative_path` (leading `..` kept).
pub open spec fn normalize_text(s: Seq<char>) -> Seq<char> {
    join(resolve(seq![], components(s)))
}

/// Drops the leading `..` segments: a key path is rooted, so `..` at the
/// root stays at the root.
pub open spec fn strip_parents(segs: Seq<Seq<char>>) -> Seq<Seq<char>>
    decreases segs.len(),
{
    if segs.len() > 0 && segs[0] == dotdot() {
        strip_parents(segs.drop_first())
    } else {
        segs
    }
}

/// The segments of the normalized form of `s`.
pub open spec fn normal_segments(s: Seq<char>) -> Seq<Seq<char>> {
    strip_parents(resolve(seq![], components(s)))
}

/// The normalized key path of the text `s`.
pub open spec fn normal_path(s: Seq<char>) -> Seq<char> {
    join(normal_segments(s))
}

/// A path text in normal form: valid segments joined by `/`.
pub open spec fn is_normal(p: Seq<char>) -> bool {
    &&& forall|i: int| 0 <= i < components(p).len() ==> valid_segment(#[trigger] components(p)[i])
    &&& join(components(p)) == p
}

/// The last name of a component list, skipping trailing `.`; none when it
/// ends in `..` or is empty.
pub open spec fn last_name(comps: Seq<Seq<char>>) -> Option<Seq<char>>
    decreases comps.len(),
{
    if comps.len() == 0 {
        None
    } else if comps.last() == dot() {
        last_name(comps.drop_last())
    } else if comps.last() == dotdot() {
        None
    } else {
        Some(comps.last())
    }
}

/// `name` pushed onto `base`: one leading `/` of `name` is dropped, and a `/`
/// is put between them unless `base` is empty or already ends in `/`.
pub open spec fn push_text(base: Seq<char>, name: Seq<char>) -> Seq<char> {
    let tail = if name.len() > 0 && name[0] == '/' {
        name.drop_first()
    } else {
        name
    };
    if base.len() > 0 && base.last() != '/' {
        base + seq!['/'] + tail
    } else {
        base + tail
    }
}

/// Byte-wise lexicographic order.
pub open spec fn bytes_cmp(a: Seq<u8>, b: Seq<u8>) -> Ordering
    decreases a.len(),
{
    if a.len() == 0 {
        if b.len() == 0 {
            Ordering::Equal
        } else {
            Ordering::Less
        }
    } else if b.len() == 0 {
        Ordering::Greater
    } else if a[0] < b[0] {
        Ordering::Less
    } else if a[0] > b[0] {
        Ordering::Greater
    } else {
        bytes_cmp(a.drop_first(), b.drop_first())
    }
}

/// Rank of a component kind: `.` before `..` before a name.
pub open spec fn component_rank(c: Seq<char>) -> int {
    if c == dot() {
        0
    } else if c == dotdot() {
        1
    } else {
        2
    }
}

/// Order of two components: by kind, then names by their UTF-8 bytes.
pub open spec fn component_cmp(a: Seq<char>, b: Seq<char>) -> Ordering {
    if component_rank(a) < component_rank(b) {
        Ordering::Less
    } else if component_rank(a) > component_rank(b) {
        Ordering::Greater
    } else if component_rank(a) == 2 {
        bytes_cmp(vstd::utf8::encode_utf8(a), vstd::utf8::encode_utf8(b))
    } else {
        Ordering::Equal
    }
}

/// Lexicographic order of component lists.
pub open spec fn components_cmp(a: Seq<Seq<char>>, b: Seq<Seq<char>>) -> Ordering
    decreases a.len(),
{
    if a.len() == 0 {
        if b.len() == 0 {
            Ordering::Equal
        } else {
            Ordering::Less
        }
    } else if b.len() == 0 {
        Ordering::Greater
    } else if component_cmp(a[0], b[0]) != Ordering::Equal {
        component_cmp(a[0], b[0])
    } else {
        components_cmp(a.drop_first(), b.drop_first())
    }
}

/// The order of two path texts, component by component.
pub open spec fn path_cmp(a: Seq<char>, b: Seq<char>) -> Ordering {
    components_cmp(components(a), components(b))
}

/// Every component of a text is plain.
pub proof fn lemma_comps_from_plain(s: Seq<char>, cur: Seq<char>)
    requires
        no_sep(cur),
    ensures
        forall|i: int|
            0 <= i < comps_from(s, cur).len() ==> plain(#[trigger] comps_from(s, cur)[i]),
    decreases s.len(),
{
    if s.len() == 0 {
        if cur.len() > 0 {
            assert(comps_from(s, cur) =~= seq![cur]);
            assert(plain(seq![cur][0]));
        }
    } else if s[0] == '/' {
        if cur.len() == 0 {
            assert(comps_from(s, cur) == comps_from(s.drop_first(), cur));
            lemma_comps_from_plain(s.drop_first(), cur);
        } else {
            lemma_comps_from_plain(s.drop_first(), seq![]);
            let rest = comps_from(s.drop_first(), seq![]);
            assert(comps_from(s, cur) == seq![cur] + rest);
            assert forall|i: int| 0 <= i < comps_from(s, cur).len() implies plain(
                #[trigger] comps_from(s, cur)[i],
            ) by {
                if i > 0 {
                    assert(comps_from(s, cur)[i] == rest[i - 1]);
                } else {
                    assert(comps_from(s, cur)[i] == cur);
                }
            }
        }
    } else {
        assert(no_sep(cur.push(s[0]))) by {
            assert forall|i: int| 0 <= i < cur.push(s[0]).len() implies cur.push(s[0])[i] != '/' by {
                if i < cur.len() {
                    assert(cur.push(s[0])[i] == cur[i]);
                }
            }
        }
        assert(comps_from(s, cur) == comps_from(s.drop_first(), cur.push(s[0])));
        lemma_comps_from_plain(s.drop_first(), cur.push(s[0]));
    }
}

/// Reading a run without `/` only extends the current piece.
pub proof fn lemma_comps_from_run(x: Seq<char>, rest: Seq<char>, cur: Seq<char>)
    requires
        no_sep(x),
    ensures
        comps_from(x + rest, cur) == comps_from(rest, cur + x),
    decreases x.len(),
{
    if x.len() == 0 {
        assert(x + rest =~= rest);
        assert(cur + x =~= cur);
    } else {
        assert((x + rest)[0] == x[0]);
        assert((x + rest).drop_first() =~= x.drop_first() + rest);
        lemma_comps_from_run(x.drop_first(), rest, cur.push(x[0]));
        assert(cur.push(x[0]) + x.drop_first() =~= cur + x);
    }
}

/// Splitting joined plain segments gives them back.
pub proof fn lemma_components_join(segs: Seq<Seq<char>>)
    requires
        forall|i: int| 0 <= i < segs.len() ==> plain(#[trigger] segs[i]),
    ensures
        components(join(segs)) == segs,
    decreases segs.len(),
{
    if segs.len() == 0 {
    } else if segs.len() == 1 {
        assert(plain(segs[0]));
        lemma_comps_from_run(segs[0], seq![], seq![]);
        assert(segs[0] + seq![] =~= segs[0]);
        assert(seq![] + segs[0] =~= segs[0]);
        assert(seq![segs[0]] =~= segs);
    } else {
        let tail = segs.drop_first();
        assert(plain(segs[0]));
        assert forall|i: int| 0 <= i < tail.len() implies plain(#[trigger] tail[i]) by {
            assert(tail[i] == segs[i + 1]);
        }
        lemma_components_join(tail);
        let after = seq!['/'] + join(tail);
        assert(join(segs) =~= segs[0] + after);
        lemma_comps_from_run(segs[0], after, seq![]);
        assert(seq![] + segs[0] =~= segs[0]);
        assert(after.drop_first() =~= join(tail));
        assert(comps_from(after, segs[0]) == seq![segs[0]] + comps_from(join(tail), seq![]));
        assert(seq![segs[0]] + tail =~= segs);
    }
}

/// A leading `/` does not change the components.
pub proof fn lemma_components_rooted(p: Seq<char>)
    ensures
        components(seq!['/'] + p) == components(p),
{
    assert((seq!['/'] + p).drop_first() =~= p);
}

/// What `resolve` builds: plain segments other than `.`, with every `..`
/// before every name.
pub open spec fn resolved(st: Seq<Seq<char>>) -> bool {
    &&& forall|i: int| 0 <= i < st.len() ==> plain(#[trigger] st[i]) && st[i] != dot()
    &&& forall|i: int, j: int|
        0 <= i < j < st.len() && #[trigger] st[j] == dotdot() ==> #[trigger] st[i] == dotdot()
}

pub proof fn lemma_resolve_resolved(st: Seq<Seq<char>>, comps: Seq<Seq<char>>)
    requires
        resolved(st),
        forall|i: int| 0 <= i < comps.len() ==> plain(#[trigger] comps[i]),
    ensures
        resolved(resolve(st, comps)),
    decreases comps.len(),
{
    if comps.len() > 0 {
        let c = comps[0];
        assert(plain(c));
        let next = if c == dot() {
            st
        } else if c == dotdot() {
            if st.len() == 0 || st.last() == dotdot() {
                st.push(c)
            } else {
                st.drop_last()
            }
        } else {
            st.push(c)
        };
        assert(resolved(next)) by {
            if c == dotdot() && (st.len() == 0 || st.last() == dotdot()) {
                assert forall|i: int, j: int|
                    0 <= i < j < next.len() && #[trigger] next[j] == dotdot() implies #[trigger] next[i]
                    == dotdot() by {
                    if j < st.len() {
                        assert(next[j] == st[j]);
                    }
                    if i < st.len() {
                        assert(next[i] == st[i]);
                        if st.len() - 1 > i {
                            assert(st[st.len() - 1] == dotdot());
                        }
                    }
                }
            } else if c != dot() && c != dotdot() {
                assert forall|i: int, j: int|
                    0 <= i < j < next.len() && #[trigger] next[j] == dotdot() implies #[trigger] next[i]
                    == dotdot() by {
                    assert(next[j] == st[j]);
                    assert(next[i] == st[i]);
                }
            }
        }
        let tail = comps.drop_first();
        assert forall|i: int| 0 <= i < tail.len() implies plain(#[trigger] tail[i]) by {
            assert(tail[i] == comps[i + 1]);
        }
        lemma_resolve_resolved(next, tail);
    }
}

/// Resolving valid segments pushes them all.
pub proof fn lemma_resolve_valid(st: Seq<Seq<char>>, segs: Seq<Seq<char>>)
    requires
        forall|i: int| 0 <= i < segs.len() ==> valid_segment(#[trigger] segs[i]),
    ensures
        resolve(st, segs) == st + segs,
    decreases segs.len(),
{
    if segs.len() == 0 {
        assert(st + segs =~= st);
    } else {
        assert(valid_segment(segs[0]));
        let tail = segs.drop_first();
        assert forall|i: int| 0 <= i < tail.len() implies valid_segment(#[trigger] tail[i]) by {
            assert(tail[i] == segs[i + 1]);
        }
        lemma_resolve_valid(st.push(segs[0]), tail);
        assert(st.push(segs[0]) + tail =~= st + segs);
    }
}

/// Once the leading `..` are gone, a resolved stack holds valid segments only.
pub proof fn lemma_strip_valid(st: Seq<Seq<char>>)
    requires
        resolved(st),
    ensures
        forall|i: int|
            0 <= i < strip_parents(st).len() ==> valid_segment(#[trigger] strip_parents(st)[i]),
        forall|i: int| 0 <= i < strip_parents(st).len() ==> plain(#[trigger] strip_parents(st)[i]),
    decreases st.len(),
{
    if st.len() > 0 && st[0] == dotdot() {
        let tail = st.drop_first();
        assert forall|i: int| 0 <= i < tail.len() implies plain(#[trigger] tail[i]) && tail[i] != dot() by {
            assert(tail[i] == st[i + 1]);
        }
        assert forall|i: int, j: int|
            0 <= i < j < tail.len() && #[trigger] tail[j] == dotdot() implies #[trigger] tail[i]
            == dotdot() by {
            assert(tail[j] == st[j + 1]);
            assert(tail[i] == st[i + 1]);
        }
        lemma_strip_valid(tail);
        assert(strip_parents(st) == strip_parents(tail));
    } else {
        assert(strip_parents(st) == st);
        assert forall|i: int| 0 <= i < st.len() implies valid_segment(#[trigger] st[i]) by {
            assert(plain(st[i]) && st[i] != dot());
            if st[i] == dotdot() && i > 0 {
                assert(st[0] == dotdot());
            }
        }
    }
}

/// Valid segments have nothing to strip.
pub proof fn lemma_strip_none(segs: Seq<Seq<char>>)
    requires
        forall|i: int| 0 <= i < segs.len() ==> valid_segment(#[trigger] segs[i]),
    ensures
        strip_parents(segs) == segs,
{
    if segs.len() > 0 {
        assert(valid_segment(segs[0]));
    }
}

/// The normal form of any text is in normal form, with the normal segments
/// as its components.
pub proof fn lemma_normal_path_is_normal(s: Seq<char>)
    ensures
        is_normal(normal_path(s)),
        components(normal_path(s)) == normal_segments(s),
{
    lemma_comps_from_plain(s, seq![]);
    lemma_resolve_resolved(seq![], components(s));
    lemma_strip_valid(resolve(seq![], components(s)));
    lemma_components_join(normal_segments(s));
}

/// A path in normal form is its own normal form, also when written with a
/// leading `/`.
pub proof fn lemma_normal_path_fixed(p: Seq<char>)
    requires
        is_normal(p),
    ensures
        normal_path(seq!['/'] + p) == p,
        normal_path(p) == p,
{
    lemma_components_rooted(p);
    lemma_resolve_valid(seq![], components(p));
    assert(seq![] + components(p) =~= components(p));
    lemma_strip_none(components(p));
}

pub proof fn lemma_bytes_cmp_equal(a: Seq<u8>, b: Seq<u8>)
    ensures
        (bytes_cmp(a, b) == Ordering::Equal) == (a == b),
    decreases a.len(),
{
    if a.len() > 0 && b.len() > 0 && a[0] == b[0] {
        lemma_bytes_cmp_equal(a.drop_first(), b.drop_first());
        if a.drop_first() == b.drop_first() {
            assert(a =~= seq![a[0]] + a.drop_first());
            assert(b =~= seq![b[0]] + b.drop_first());
        }
    } else if a.len() > 0 && b.len() > 0 {
        assert(a[0] != b[0]);
    } else if a.len() == 0 && b.len() == 0 {
        assert(a =~= b);
    }
}

pub proof fn lemma_component_cmp_equal(a: Seq<char>, b: Seq<char>)
    ensures
        (component_cmp(a, b) == Ordering::Equal) == (a == b),
{
    if component_rank(a) == 2 && component_rank(b) == 2 {
        lemma_bytes_cmp_equal(vstd::utf8::encode_utf8(a), vstd::utf8::encode_utf8(b));
        vstd::utf8::encode_utf8_decode_utf8(a);
        vstd::utf8::encode_utf8_decode_utf8(b);
    }
}

pub proof fn lemma_components_cmp_equal(a: Seq<Seq<char>>, b: Seq<Seq<char>>)
    ensures
        (components_cmp(a, b) == Ordering::Equal) == (a == b),
    decreases a.len(),
{
    if a.len() > 0 && b.len() > 0 {
        lemma_component_cmp_equal(a[0], b[0]);
        lemma_components_cmp_equal(a.drop_first(), b.drop_first());
        if a[0] == b[0] && a.drop_first() == b.drop_first() {
            assert(a =~= seq![a[0]] + a.drop_first());
            assert(b =~= seq![b[0]] + b.drop_first());
        }
        if a == b {
            assert(a.drop_first() == b.drop_first());
        }
    } else if a.len() == 0 && b.len() == 0 {
        assert(a =~= b);
    }
}

/// Two normalized paths compare `Equal` exactly when they are the same
/// path, so the key order and the identity of keys in a key set agree.
pub proof fn lemma_path_cmp_equal(a: Seq<char>, b: Seq<char>)
    requires
        is_normal(a),
        is_normal(b),
    ensures
        (path_cmp(a, b) == Ordering::Equal) == (a == b),
{
    lemma_components_cmp_equal(components(a), components(b));
}

/// Relies on `RelativePath::normalize`: it walks the components, skips `.`,
/// lets `..` remove the last pushed name (or pushes it when there is none),
/// and joins the result with `/`.
#[verifier::external_body]
pub(crate) fn normalize(s: &str) -> (r: String)
    ensures
        r@ == normalize_text(s@),
{
    RelativePath::new(s).normalize().into_string()
}

/// Relies on `RelativePath::file_name`: the last component, after trailing
/// `.`, when it is a name.
#[verifier::external_body]
pub(crate) fn file_name(p: &str) -> (r: Option<&str>)
    ensures
        r.is_some() == last_name(components(p@)).is_some(),
        r matches Some(n) ==> last_name(components(p@)) == Some(n@),
{
    RelativePath::new(p).file_name()
}

/// Relies on `RelativePathBuf::set_file_name` on a normalized path: it pops
/// the last name, if any, then pushes `name`.
#[verifier::external_body]
pub(crate) fn with_file_name(p: &str, name: &str) -> (r: String)
    requires
        is_normal(p@),
    ensures
        r@ == push_text(
            if p@.len() > 0 {
                join(components(p@).drop_last())
            } else {
                p@
            },
            name@,
        ),
{
    let mut buf = RelativePathBuf::from(p);
    buf.set_file_name(name);
    buf.into_string()
}

/// Relies on `RelativePath::join`: a copy of `p` with `name` pushed onto it.
#[verifier::external_body]
pub(crate) fn join_text(p: &str, name: &str) -> (r: String)
    ensures
        r@ == push_text(p@, name@),
{
    RelativePath::new(p).join(name).into_string()
}

/// Relies on `Ord for RelativePath`: components compared in order.
#[verifier::external_body]
pub(crate) fn compare_paths(a: &str, b: &str) -> (r: Ordering)
    ensures
        r == path_cmp(a@, b@),
{
    RelativePath::new(a).cmp(RelativePath::new(b))
}

/// Relies on `str::strip_prefix`: the rest of `s` when it starts with `prefix`.
#[verifier::external_body]
pub(crate) fn strip_prefix<'a>(s: &'a str, prefix: &str) -> (r: Option<&'a str>)
    ensures
        r.is_some() == (prefix@.len() <= s@.len() && s@.take(prefix@.len() as int) == prefix@),
        r matches Some(rest) ==> rest@ == s@.skip(prefix@.len() as int),
{
    s.strip_prefix(prefix)
}

/// How `..` leads a joined text.
pub proof fn lemma_join_parent(st: Seq<Seq<char>>)
    requires
        forall|i: int| 0 <= i < st.len() ==> plain(#[trigger] st[i]),
    ensures
        (join(st) == dotdot()) == (st == seq![dotdot()]),
        st.len() >= 2 && st[0] == dotdot() ==> join(st) == seq!['.', '.', '/'] + join(st.drop_first()),
        3 <= join(st).len() && join(st).take(3) == seq!['.', '.', '/'] ==> st.len() >= 2 && st[0]
            == dotdot(),
{
    if st.len() == 0 {
        assert(seq![dotdot()].len() == 1);
        assert(join(st).len() == 0);
    } else if st.len() == 1 {
        assert(plain(st[0]));
        assert(join(st) == st[0]);
        if join(st) == dotdot() {
            assert(st =~= seq![dotdot()]);
        }
        if 3 <= join(st).len() && join(st).take(3) == seq!['.', '.', '/'] {
            assert(join(st).take(3)[2] == '/');
            assert(st[0][2] != '/');
        }
    } else {
        let a = st[0];
        let tail = st.drop_first();
        assert(plain(a));
        let j = join(st);
        assert(j =~= a + seq!['/'] + join(tail));
        assert(j[a.len() as int] == '/');
        if j == dotdot() {
            assert(a.len() < 2);
            assert(j[1] == '.');
            assert(false);
        }
        assert(st != seq![dotdot()]);
        if a == dotdot() {
            assert(j =~= seq!['.', '.', '/'] + join(tail));
        }
        if 3 <= j.len() && j.take(3) == seq!['.', '.', '/'] {
            assert(j.take(3)[0] == '.' && j.take(3)[1] == '.' && j.take(3)[2] == '/');
            if a.len() == 1 {
                assert(j[1] == '/');
            } else if a.len() > 2 {
                assert(j[2] == a[2]);
            }
            assert(a.len() == 2);
            assert(a =~= dotdot());
        }
    }
}

/// The normalized key path of `s`: `relative_path`'s normal form, less the
/// leading `..` that have nothing left to resolve against.
pub fn normalize_key_path(s: &str) -> (r: String)
    ensures
        r@ == normal_path(s@),
        is_normal(r@),
{
    let mut p = normalize(s);
    let ghost mut st = resolve(seq![], components(s@));
    proof {
        lemma_comps_from_plain(s@, seq![]);
        lemma_resolve_resolved(seq![], components(s@));
        lemma_normal_path_is_normal(s@);
        reveal_strlit("..");
        reveal_strlit("../");
    }
    let parent: String = "..".to_owned();
    loop
        invariant
            parent@ == dotdot(),
            p@ == join(st),
            resolved(st),
            strip_parents(st) == normal_segments(s@),
        ensures
            p@ == normal_path(s@),
        decreases p@.len(),
    {
        proof {
            lemma_join_parent(st);
            reveal_strlit("../");
        }
        if p == parent {
            proof {
                assert(st == seq![dotdot()]);
                assert(st[0] == dotdot());
                assert(strip_parents(st) == strip_parents(st.drop_first()));
                assert(st.drop_first() =~= seq![]);
                st = seq![];
            }
            p = String::new();
            break;
        }
        match strip_prefix(p.as_str(), "../") {
            Some(rest) => {
                let q = rest.to_owned();
                proof {
                    assert(p@.take(3) == seq!['.', '.', '/']);
                    assert(st.len() >= 2 && st[0] == dotdot());
                    assert(strip_parents(st) == strip_parents(st.drop_first()));
                    let t = st.drop_first();
                    assert(q@ =~= join(t));
                    assert forall|i: int| 0 <= i < t.len() implies plain(#[trigger] t[i]) && t[i] != dot() by {
                        assert(t[i] == st[i + 1]);
                    }
                    assert forall|i: int, j: int|
                        0 <= i < j < t.len() && #[trigger] t[j] == dotdot() implies #[trigger] t[i]
                        == dotdot() by {
                        assert(t[j] == st[j + 1]);
                        assert(t[i] == st[i + 1]);
                    }
                    st = t;
                }
                p = q;
            },
            None => {
                proof {
                    if st.len() > 0 && st[0] == dotdot() {
                        if st.len() == 1 {
                            assert(st =~= seq![dotdot()]);
                        }
                        assert(st.len() >= 2);
                        assert(p@ =~= seq!['.', '.', '/'] + join(st.drop_first()));
                        assert(p@.take(3) =~= seq!['.', '.', '/']);
                        assert("../"@ =~= seq!['.', '.', '/']);
                        assert(false);
                    }
                    assert(strip_parents(st) == st);
                }
                break;
            },
        }
    }
    p
}

} // verus!
