//! Key names: a namespace and a normalized path, with the canonical text
//! form `<namespace>:/<path>`.
use crate::key::KeyError;
use crate::namespace::{lemma_token_plain, lemma_token_round_trip, namespace_of_token, token, KeyNamespace};
use crate::path::{
    components, file_name, is_normal, join, join_text,
    lemma_normal_path_fixed, normal_path, normalize_key_path, plain, push_text, valid_segment,
    with_file_name,
};
use vstd::prelude::*;

verus! {

/// The text before and after the first `:` of `s`, if it has one.
pub open spec fn split_name(s: Seq<char>) -> Option<(Seq<char>, Seq<char>)>
    decreases s.len(),
{
    if s.len() == 0 {
        None
    } else if s[0] == ':' {
        Some((seq![], s.drop_first()))
    } else {
        match split_name(s.drop_first()) {
            Some((a, b)) => Some((seq![s[0]] + a, b)),
            None => None,
        }
    }
}

/// The namespace and normalized path a name text denotes: the text splits at
/// its first `:` into a non-empty namespace token and a non-empty path.
pub open spec fn parse_name(s: Seq<char>) -> Option<(KeyNamespace, Seq<char>)> {
    match split_name(s) {
        Some((a, b)) => if a.len() > 0 && b.len() > 0 {
            Some((namespace_of_token(a), normal_path(b)))
        } else {
            None
        },
        None => None,
    }
}

/// The canonical text of a name.
pub open spec fn format_name(ns: KeyNamespace, p: Seq<char>) -> Seq<char> {
    token(ns) + seq![':', '/'] + p
}

/// A canonical name text: a namespace token, `:/`, and a normalized path.
pub open spec fn canonical(s: Seq<char>) -> bool {
    exists|ns: KeyNamespace, p: Seq<char>| is_normal(p) && s == format_name(ns, p)
}

/// The last segment of a normalized path, none for the root.
pub open spec fn base_of(p: Seq<char>) -> Option<Seq<char>> {
    if components(p).len() == 0 {
        None
    } else {
        Some(components(p).last())
    }
}

/// The path left when the last segment of a normalized path is removed.
pub open spec fn parent_of(p: Seq<char>) -> Seq<char> {
    if p.len() > 0 {
        join(components(p).drop_last())
    } else {
        p
    }
}

/// Relies on `str::split_once`: the text before and after the first `:`.
#[verifier::external_body]
fn split_once_colon(s: &str) -> (r: Option<(&str, &str)>)
    ensures
        r.is_some() == split_name(s@).is_some(),
        r matches Some((a, b)) ==> split_name(s@) == Some((a@, b@)),
{
    s.split_once(':')
}

/// Splitting at a first `:` that follows a text without `:`.
pub proof fn lemma_split_name(a: Seq<char>, b: Seq<char>)
    requires
        forall|i: int| 0 <= i < a.len() ==> a[i] != ':',
    ensures
        split_name(a + seq![':'] + b) == Some((a, b)),
    decreases a.len(),
{
    let s = a + seq![':'] + b;
    if a.len() == 0 {
        assert(s[0] == ':');
        assert(s.drop_first() =~= b);
    } else {
        assert(s[0] == a[0]);
        assert(s.drop_first() =~= a.drop_first() + seq![':'] + b);
        lemma_split_name(a.drop_first(), b);
        assert(seq![a[0]] + a.drop_first() =~= a);
    }
}

/// A joined list of plain segments is empty exactly when the list is.
pub proof fn lemma_join_empty(segs: Seq<Seq<char>>)
    requires
        forall|i: int| 0 <= i < segs.len() ==> plain(#[trigger] segs[i]),
    ensures
        (join(segs).len() == 0) == (segs.len() == 0),
{
    if segs.len() == 1 {
        assert(plain(segs[0]));
    } else if segs.len() > 1 {
        assert(plain(segs[0]));
        assert(join(segs) =~= segs[0] + seq!['/'] + join(segs.drop_first()));
    }
}

/// A namespace and a normalized path.
#[derive(Debug)]
pub struct KeyName {
    namespace: KeyNamespace,
    path: String,
}

impl KeyName {
    #[verifier::type_invariant]
    spec fn wf(&self) -> bool {
        is_normal(self.path@)
    }

    pub closed spec fn spec_ns(&self) -> KeyNamespace {
        self.namespace
    }

    pub closed spec fn spec_path(&self) -> Seq<char> {
        self.path@
    }

    /// A name in `namespace` with `path` normalized.
    pub fn new(namespace: KeyNamespace, path: &str) -> (r: KeyName)
        ensures
            r.spec_ns() == namespace,
            r.spec_path() == normal_path(path@),
    {
        KeyName { namespace, path: normalize_key_path(path) }
    }

    /// Parses `<namespace>:<path>`; the path is normalized and an unknown
    /// namespace token means `Default`.
    pub fn from_str(name: &str) -> (r: Result<KeyName, KeyError>)
        ensures
            match parse_name(name@) {
                Some((ns, p)) => r matches Ok(k) && k.spec_ns() == ns && k.spec_path() == p,
                None => r == Err::<KeyName, KeyError>(KeyError::InvalidNameError),
            },
    {
        match split_once_colon(name) {
            Some((ns, path)) => {
                if ns.is_empty() || path.is_empty() {
                    Err(KeyError::InvalidNameError)
                } else {
                    Ok(KeyName::new(KeyNamespace::from_token(ns), path))
                }
            },
            None => Err(KeyError::InvalidNameError),
        }
    }

    /// The canonical text `<namespace>:/<path>`.
    pub fn to_string(&self) -> (r: String)
        ensures
            r@ == format_name(self.spec_ns(), self.spec_path()),
    {
        let mut r = self.namespace.to_string();
        proof {
            reveal_strlit(":/");
        }
        r.append(":/");
        r.append(self.path.as_str());
        proof {
            assert(r@ =~= format_name(self.spec_ns(), self.spec_path()));
        }
        r
    }

    /// The normalized path, without namespace.
    pub fn path_str(&self) -> (r: &str)
        ensures
            r@ == self.spec_path(),
            is_normal(r@),
    {
        proof {
            use_type_invariant(self);
        }
        self.path.as_str()
    }

    /// The last path segment; none for the root path.
    pub fn base_name(&self) -> (r: Option<&str>)
        ensures
            r.is_some() == base_of(self.spec_path()).is_some(),
            r.is_some() == (self.spec_path().len() > 0),
            r matches Some(n) ==> base_of(self.spec_path()) == Some(n@),
    {
        proof {
            use_type_invariant(self);
            lemma_base_of(self.path@);
            let c = components(self.path@);
            if c.len() > 0 {
                assert(valid_segment(c[c.len() - 1]));
            }
        }
        file_name(self.path.as_str())
    }

    /// Replaces the last path segment by `base_name` (or adds it to the root
    /// path), then normalizes.
    pub fn set_base_name(&mut self, base_name: &str)
        ensures
            final(self).spec_ns() == old(self).spec_ns(),
            final(self).spec_path() == normal_path(
                push_text(parent_of(old(self).spec_path()), base_name@),
            ),
    {
        proof {
            use_type_invariant(&*self);
        }
        let t = with_file_name(self.path.as_str(), base_name);
        self.path = normalize_key_path(t.as_str());
    }

    /// Appends `name` (which may hold several segments) to the path, then
    /// normalizes.
    pub fn append_name(&mut self, name: &str)
        ensures
            final(self).spec_ns() == old(self).spec_ns(),
            final(self).spec_path() == normal_path(push_text(old(self).spec_path(), name@)),
    {
        let t = join_text(self.path.as_str(), name);
        self.path = normalize_key_path(t.as_str());
    }

    pub fn namespace(&self) -> (r: KeyNamespace)
        ensures
            r == self.spec_ns(),
    {
        self.namespace
    }

    /// Replaces the namespace; the path is kept as it is.
    pub fn set_namespace(&mut self, namespace: KeyNamespace)
        ensures
            final(self).spec_ns() == namespace,
            final(self).spec_path() == old(self).spec_path(),
    {
        proof {
            use_type_invariant(&*self);
        }
        self.namespace = namespace;
    }
}

impl Clone for KeyName {
    fn clone(&self) -> (r: KeyName)
        ensures
            r.spec_ns() == self.spec_ns(),
            r.spec_path() == self.spec_path(),
    {
        proof {
            use_type_invariant(self);
        }
        KeyName { namespace: self.namespace, path: self.path.clone() }
    }
}

/// Parsing a canonical name text and formatting the result gives the text
/// back.
pub proof fn lemma_format_parse(s: Seq<char>)
    requires
        canonical(s),
    ensures
        parse_name(s) matches Some((ns, p)) && format_name(ns, p) == s,
{
    let (ns, p) = choose|ns: KeyNamespace, p: Seq<char>| is_normal(p) && s == format_name(ns, p);
    lemma_parse_format(ns, p);
}

/// The text of a name with a normalized path parses back to that name.
pub proof fn lemma_parse_format(ns: KeyNamespace, p: Seq<char>)
    requires
        is_normal(p),
    ensures
        parse_name(format_name(ns, p)) == Some((ns, p)),
{
    let s = format_name(ns, p);
    lemma_token_plain(ns);
    lemma_token_round_trip(ns);
    let rest = seq!['/'] + p;
    assert(s =~= token(ns) + seq![':'] + rest);
    lemma_split_name(token(ns), rest);
    lemma_normal_path_fixed(p);
}

/// The base name of a non-root path is its last segment, and that segment
/// is valid.
pub proof fn lemma_base_of(p: Seq<char>)
    requires
        is_normal(p),
    ensures
        base_of(p).is_some() == (p.len() > 0),
        base_of(p) matches Some(n) ==> valid_segment(n),
{
    let c = components(p);
    assert forall|i: int| 0 <= i < c.len() implies plain(#[trigger] c[i]) by {
        assert(valid_segment(c[i]));
    }
    lemma_join_empty(c);
    if c.len() > 0 {
        assert(valid_segment(c[c.len() - 1]));
    }
}

impl std::str::FromStr for KeyName {
    type Err = KeyError;

    fn from_str(s: &str) -> Result<KeyName, KeyError> {
        KeyName::from_str(s)
    }
}

} // verus!
