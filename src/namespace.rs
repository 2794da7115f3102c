//! The closed set of namespaces a key can belong to, their canonical tokens
//! and their stable integer encoding.
use vstd::prelude::*;

verus! {

/// The logical root of a key.
#[derive(Copy, Clone, PartialEq, Eq, Debug, Hash, Structural)]
pub enum KeyNamespace {
    NoNamespace,
    Cascading,
    Meta,
    Spec,
    Proc,
    Dir,
    User,
    System,
    Default,
}

/// Error type of namespace parsing; parsing never produces it, since unknown
/// tokens fall back to [`KeyNamespace::Default`].
#[derive(Copy, Clone, PartialEq, Eq, Debug, Structural)]
pub enum KeyNamespaceError {
    InvalidNamespaceError,
}

/// The canonical token written before `:/` in a key name.
pub open spec fn token(ns: KeyNamespace) -> Seq<char> {
    match ns {
        KeyNamespace::NoNamespace => seq!['n', 'o', 'n', 'e'],
        KeyNamespace::Cascading => seq!['c', 'a', 's', 'c', 'a', 'd', 'i', 'n', 'g'],
        KeyNamespace::Meta => seq!['m', 'e', 't', 'a'],
        KeyNamespace::Spec => seq!['s', 'p', 'e', 'c'],
        KeyNamespace::Proc => seq!['p', 'r', 'o', 'c'],
        KeyNamespace::Dir => seq!['d', 'i', 'r'],
        KeyNamespace::User => seq!['u', 's', 'e', 'r'],
        KeyNamespace::System => seq!['s', 'y', 's', 't', 'e', 'm'],
        KeyNamespace::Default => seq!['d', 'e', 'f', 'a', 'u', 'l', 't'],
    }
}

/// The namespace a token denotes; unrecognized tokens denote `Default`.
pub open spec fn namespace_of_token(t: Seq<char>) -> KeyNamespace {
    if t == token(KeyNamespace::NoNamespace) {
        KeyNamespace::NoNamespace
    } else if t == token(KeyNamespace::Cascading) {
        KeyNamespace::Cascading
    } else if t == token(KeyNamespace::Meta) {
        KeyNamespace::Meta
    } else if t == token(KeyNamespace::Spec) {
        KeyNamespace::Spec
    } else if t == token(KeyNamespace::Proc) {
        KeyNamespace::Proc
    } else if t == token(KeyNamespace::Dir) {
        KeyNamespace::Dir
    } else if t == token(KeyNamespace::User) {
        KeyNamespace::User
    } else if t == token(KeyNamespace::System) {
        KeyNamespace::System
    } else {
        KeyNamespace::Default
    }
}

/// The fixed integer encoding used at the foreign boundary.
pub open spec fn code_of(ns: KeyNamespace) -> int {
    match ns {
        KeyNamespace::NoNamespace => 0,
        KeyNamespace::Cascading => 1,
        KeyNamespace::Meta => 2,
        KeyNamespace::Spec => 3,
        KeyNamespace::Proc => 4,
        KeyNamespace::Dir => 5,
        KeyNamespace::User => 6,
        KeyNamespace::System => 7,
        KeyNamespace::Default => 8,
    }
}

/// A token never contains the name separator `:` nor `/`.
pub proof fn lemma_token_plain(ns: KeyNamespace)
    ensures
        token(ns).len() > 0,
        forall|i: int| 0 <= i < token(ns).len() ==> token(ns)[i] != ':' && token(ns)[i] != '/',
{
}

/// Reading back the token of a namespace gives that namespace.
pub proof fn lemma_token_round_trip(ns: KeyNamespace)
    ensures
        namespace_of_token(token(ns)) == ns,
{
}

impl KeyNamespace {
    /// The namespace named by `s`; unknown tokens give `Default`.
    pub fn from_token(s: &str) -> (r: KeyNamespace)
        ensures
            r == namespace_of_token(s@),
    {
        let t: String = s.to_owned();
        if t == KeyNamespace::NoNamespace.to_string() {
            KeyNamespace::NoNamespace
        } else if t == KeyNamespace::Cascading.to_string() {
            KeyNamespace::Cascading
        } else if t == KeyNamespace::Meta.to_string() {
            KeyNamespace::Meta
        } else if t == KeyNamespace::Spec.to_string() {
            KeyNamespace::Spec
        } else if t == KeyNamespace::Proc.to_string() {
            KeyNamespace::Proc
        } else if t == KeyNamespace::Dir.to_string() {
            KeyNamespace::Dir
        } else if t == KeyNamespace::User.to_string() {
            KeyNamespace::User
        } else if t == KeyNamespace::System.to_string() {
            KeyNamespace::System
        } else {
            KeyNamespace::Default
        }
    }

    /// Parses a namespace token; this never fails.
    pub fn from_str(s: &str) -> (r: Result<KeyNamespace, KeyNamespaceError>)
        ensures
            r == Ok::<KeyNamespace, KeyNamespaceError>(namespace_of_token(s@)),
    {
        Ok(KeyNamespace::from_token(s))
    }

    /// The canonical token of this namespace.
    pub fn to_string(&self) -> (r: String)
        ensures
            r@ == token(*self),
    {
        let t: &str = match self {
            KeyNamespace::NoNamespace => {
                proof { reveal_strlit("none"); }
                "none"
            },
            KeyNamespace::Cascading => {
                proof { reveal_strlit("cascading"); }
                "cascading"
            },
            KeyNamespace::Meta => {
                proof { reveal_strlit("meta"); }
                "meta"
            },
            KeyNamespace::Spec => {
                proof { reveal_strlit("spec"); }
                "spec"
            },
            KeyNamespace::Proc => {
                proof { reveal_strlit("proc"); }
                "proc"
            },
            KeyNamespace::Dir => {
                proof { reveal_strlit("dir"); }
                "dir"
            },
            KeyNamespace::User => {
                proof { reveal_strlit("user"); }
                "user"
            },
            KeyNamespace::System => {
                proof { reveal_strlit("system"); }
                "system"
            },
            KeyNamespace::Default => {
                proof { reveal_strlit("default"); }
                "default"
            },
        };
        t.to_owned()
    }

    /// The stable integer code of this namespace.
    pub fn code(&self) -> (r: u32)
        ensures
            r as int == code_of(*self),
    {
        match self {
            KeyNamespace::NoNamespace => 0,
            KeyNamespace::Cascading => 1,
            KeyNamespace::Meta => 2,
            KeyNamespace::Spec => 3,
            KeyNamespace::Proc => 4,
            KeyNamespace::Dir => 5,
            KeyNamespace::User => 6,
            KeyNamespace::System => 7,
            KeyNamespace::Default => 8,
        }
    }

    /// The namespace with the given code; codes outside the table give `NoNamespace`.
    pub fn from_code(c: u32) -> (r: KeyNamespace)
        ensures
            0 <= c <= 8 ==> code_of(r) == c,
            c > 8 ==> r == KeyNamespace::NoNamespace,
    {
        match c {
            0 => KeyNamespace::NoNamespace,
            1 => KeyNamespace::Cascading,
            2 => KeyNamespace::Meta,
            3 => KeyNamespace::Spec,
            4 => KeyNamespace::Proc,
            5 => KeyNamespace::Dir,
            6 => KeyNamespace::User,
            7 => KeyNamespace::System,
            8 => KeyNamespace::Default,
            _ => KeyNamespace::NoNamespace,
        }
    }
}

/// The integer encoding is a bijection between the nine namespaces and 0..=8.
pub proof fn lemma_code_round_trip(ns: KeyNamespace, c: int)
    ensures
        0 <= code_of(ns) <= 8,
        0 <= c <= 8 ==> exists|m: KeyNamespace| code_of(m) == c,
        forall|m: KeyNamespace| code_of(m) == code_of(ns) ==> m == ns,
{
    if c == 0 { assert(code_of(KeyNamespace::NoNamespace) == c); }
    else if c == 1 { assert(code_of(KeyNamespace::Cascading) == c); }
    else if c == 2 { assert(code_of(KeyNamespace::Meta) == c); }
    else if c == 3 { assert(code_of(KeyNamespace::Spec) == c); }
    else if c == 4 { assert(code_of(KeyNamespace::Proc) == c); }
    else if c == 5 { assert(code_of(KeyNamespace::Dir) == c); }
    else if c == 6 { assert(code_of(KeyNamespace::User) == c); }
    else if c == 7 { assert(code_of(KeyNamespace::System) == c); }
    else if c == 8 { assert(code_of(KeyNamespace::Default) == c); }
}

impl std::str::FromStr for KeyNamespace {
    type Err = KeyNamespaceError;

    fn from_str(s: &str) -> Result<KeyNamespace, KeyNamespaceError> {
        KeyNamespace::from_str(s)
    }
}

} // verus!
