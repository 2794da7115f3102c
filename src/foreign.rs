//! Plain-value mirror of the fixed foreign layout of a key, and the
//! conversions between it and [`Key`].
//!
//! A [`ForeignKey`] holds, as owned buffers, exactly what the foreign
//! structure points to: the escaped name (NUL-terminated), the unescaped name,
//! and the value bytes. Whoever lays it out in foreign memory owns those
//! buffers until the structure is destroyed or overwritten.
use crate::key::{Key, KeyError};
use crate::keyset::{collected, KeySet};
use crate::name::{format_name, lemma_parse_format, parse_name};
use crate::namespace::{code_of, KeyNamespace};
use crate::path::is_normal;
use vstd::prelude::*;
use vstd::slice::{slice_subrange, slice_to_vec};
use vstd::utf8::{decode_utf8, encode_utf8, encode_utf8_decode_utf8, encode_utf8_valid_utf8, valid_utf8};

verus! {

/// Namespace codes as the foreign side sees them.
#[derive(Copy, Clone, PartialEq, Eq, Debug, Structural)]
pub enum elektraNamespace {
    KEY_NS_NONE,
    KEY_NS_CASCADING,
    KEY_NS_META,
    KEY_NS_SPEC,
    KEY_NS_PROC,
    KEY_NS_DIR,
    KEY_NS_USER,
    KEY_NS_SYSTEM,
    KEY_NS_DEFAULT,
}

/// The integer value of a foreign namespace code.
pub open spec fn foreign_code(ns: elektraNamespace) -> int {
    match ns {
        elektraNamespace::KEY_NS_NONE => 0,
        elektraNamespace::KEY_NS_CASCADING => 1,
        elektraNamespace::KEY_NS_META => 2,
        elektraNamespace::KEY_NS_SPEC => 3,
        elektraNamespace::KEY_NS_PROC => 4,
        elektraNamespace::KEY_NS_DIR => 5,
        elektraNamespace::KEY_NS_USER => 6,
        elektraNamespace::KEY_NS_SYSTEM => 7,
        elektraNamespace::KEY_NS_DEFAULT => 8,
    }
}

/// The foreign code that stands for a namespace.
pub open spec fn to_foreign_ns(ns: KeyNamespace) -> elektraNamespace {
    match ns {
        KeyNamespace::NoNamespace => elektraNamespace::KEY_NS_NONE,
        KeyNamespace::Cascading => elektraNamespace::KEY_NS_CASCADING,
        KeyNamespace::Meta => elektraNamespace::KEY_NS_META,
        KeyNamespace::Spec => elektraNamespace::KEY_NS_SPEC,
        KeyNamespace::Proc => elektraNamespace::KEY_NS_PROC,
        KeyNamespace::Dir => elektraNamespace::KEY_NS_DIR,
        KeyNamespace::User => elektraNamespace::KEY_NS_USER,
        KeyNamespace::System => elektraNamespace::KEY_NS_SYSTEM,
        KeyNamespace::Default => elektraNamespace::KEY_NS_DEFAULT,
    }
}

/// The namespace a foreign code stands for.
pub open spec fn from_foreign_ns(ns: elektraNamespace) -> KeyNamespace {
    match ns {
        elektraNamespace::KEY_NS_NONE => KeyNamespace::NoNamespace,
        elektraNamespace::KEY_NS_CASCADING => KeyNamespace::Cascading,
        elektraNamespace::KEY_NS_META => KeyNamespace::Meta,
        elektraNamespace::KEY_NS_SPEC => KeyNamespace::Spec,
        elektraNamespace::KEY_NS_PROC => KeyNamespace::Proc,
        elektraNamespace::KEY_NS_DIR => KeyNamespace::Dir,
        elektraNamespace::KEY_NS_USER => KeyNamespace::User,
        elektraNamespace::KEY_NS_SYSTEM => KeyNamespace::System,
        elektraNamespace::KEY_NS_DEFAULT => KeyNamespace::Default,
    }
}

impl elektraNamespace {
    /// The integer code of this namespace.
    pub fn code(&self) -> (r: i32)
        ensures
            r as int == foreign_code(*self),
    {
        match self {
            elektraNamespace::KEY_NS_NONE => 0,
            elektraNamespace::KEY_NS_CASCADING => 1,
            elektraNamespace::KEY_NS_META => 2,
            elektraNamespace::KEY_NS_SPEC => 3,
            elektraNamespace::KEY_NS_PROC => 4,
            elektraNamespace::KEY_NS_DIR => 5,
            elektraNamespace::KEY_NS_USER => 6,
            elektraNamespace::KEY_NS_SYSTEM => 7,
            elektraNamespace::KEY_NS_DEFAULT => 8,
        }
    }

    /// The namespace with code `c`; an unknown code gives `KEY_NS_NONE`.
    pub fn from_code(c: i32) -> (r: elektraNamespace)
        ensures
            0 <= c <= 8 ==> foreign_code(r) == c,
            !(0 <= c <= 8) ==> r == elektraNamespace::KEY_NS_NONE,
    {
        match c {
            1 => elektraNamespace::KEY_NS_CASCADING,
            2 => elektraNamespace::KEY_NS_META,
            3 => elektraNamespace::KEY_NS_SPEC,
            4 => elektraNamespace::KEY_NS_PROC,
            5 => elektraNamespace::KEY_NS_DIR,
            6 => elektraNamespace::KEY_NS_USER,
            7 => elektraNamespace::KEY_NS_SYSTEM,
            8 => elektraNamespace::KEY_NS_DEFAULT,
            _ => elektraNamespace::KEY_NS_NONE,
        }
    }
}

impl From<KeyNamespace> for elektraNamespace {
    fn from(namespace: KeyNamespace) -> (r: elektraNamespace) {
        match namespace {
            KeyNamespace::NoNamespace => elektraNamespace::KEY_NS_NONE,
            KeyNamespace::Cascading => elektraNamespace::KEY_NS_CASCADING,
            KeyNamespace::Meta => elektraNamespace::KEY_NS_META,
            KeyNamespace::Spec => elektraNamespace::KEY_NS_SPEC,
            KeyNamespace::Proc => elektraNamespace::KEY_NS_PROC,
            KeyNamespace::Dir => elektraNamespace::KEY_NS_DIR,
            KeyNamespace::User => elektraNamespace::KEY_NS_USER,
            KeyNamespace::System => elektraNamespace::KEY_NS_SYSTEM,
            KeyNamespace::Default => elektraNamespace::KEY_NS_DEFAULT,
        }
    }
}

impl vstd::std_specs::convert::FromSpecImpl<KeyNamespace> for elektraNamespace {
    open spec fn obeys_from_spec() -> bool {
        true
    }

    open spec fn from_spec(v: KeyNamespace) -> elektraNamespace {
        to_foreign_ns(v)
    }
}

impl From<elektraNamespace> for KeyNamespace {
    fn from(namespace: elektraNamespace) -> (r: KeyNamespace) {
        match namespace {
            elektraNamespace::KEY_NS_NONE => KeyNamespace::NoNamespace,
            elektraNamespace::KEY_NS_CASCADING => KeyNamespace::Cascading,
            elektraNamespace::KEY_NS_META => KeyNamespace::Meta,
            elektraNamespace::KEY_NS_SPEC => KeyNamespace::Spec,
            elektraNamespace::KEY_NS_PROC => KeyNamespace::Proc,
            elektraNamespace::KEY_NS_DIR => KeyNamespace::Dir,
            elektraNamespace::KEY_NS_USER => KeyNamespace::User,
            elektraNamespace::KEY_NS_SYSTEM => KeyNamespace::System,
            elektraNamespace::KEY_NS_DEFAULT => KeyNamespace::Default,
        }
    }
}

impl vstd::std_specs::convert::FromSpecImpl<elektraNamespace> for KeyNamespace {
    open spec fn obeys_from_spec() -> bool {
        true
    }

    open spec fn from_spec(v: elektraNamespace) -> KeyNamespace {
        from_foreign_ns(v)
    }
}

/// The two encodings of a namespace agree and convert back and forth.
pub proof fn lemma_foreign_ns_round_trip(ns: KeyNamespace, f: elektraNamespace)
    ensures
        from_foreign_ns(to_foreign_ns(ns)) == ns,
        to_foreign_ns(from_foreign_ns(f)) == f,
        foreign_code(to_foreign_ns(ns)) == code_of(ns),
{
}

/// Relies on `std::str::from_utf8`: the text the bytes encode, when they are
/// valid UTF-8.
#[verifier::external_body]
fn utf8_text(b: &[u8]) -> (r: Option<&str>)
    ensures
        r.is_some() == valid_utf8(b@),
        r matches Some(t) ==> t@ == decode_utf8(b@),
{
    std::str::from_utf8(b).ok()
}

/// Position of the first NUL byte, or the length when there is none.
pub open spec fn nul_index(b: Seq<u8>) -> int
    decreases b.len(),
{
    if b.len() == 0 {
        0
    } else if b[0] == 0 {
        0
    } else {
        1 + nul_index(b.drop_first())
    }
}

/// What a C string reader sees of a buffer: the bytes before the first NUL.
pub open spec fn cstr_bytes(b: Seq<u8>) -> Seq<u8> {
    b.take(nul_index(b))
}

pub open spec fn has_nul(b: Seq<u8>) -> bool {
    exists|i: int| 0 <= i < b.len() && b[i] == 0
}

/// The escaped name of a key: its canonical text in UTF-8.
pub open spec fn name_bytes(ns: KeyNamespace, p: Seq<char>) -> Seq<u8> {
    encode_utf8(format_name(ns, p))
}

/// `/` becomes the separator byte 0.
pub open spec fn sep_to_nul(b: u8) -> u8 {
    if b == 0x2f {
        0
    } else {
        b
    }
}

/// The unescaped name of a key: the namespace code, a 0, then the path
/// bytes with every `/` turned into 0, closed by a 0.
pub open spec fn unescaped_bytes(ns: KeyNamespace, p: Seq<char>) -> Seq<u8> {
    seq![code_of(ns) as u8, 0u8] + encode_utf8(p).map_values(|b: u8| sep_to_nul(b)) + seq![0u8]
}

pub open spec fn bytes_view(v: Option<Vec<u8>>) -> Option<Seq<u8>> {
    match v {
        Some(b) => Some(b@),
        None => None,
    }
}

/// The contents of the foreign layout of a key. Null pointers are `None`
/// (for the value) or empty buffers; sizes count the terminating NUL where
/// there is one.
pub struct ForeignKey {
    /// The value buffer, absent for a key without value.
    pub data: Option<Vec<u8>>,
    pub data_size: usize,
    /// The escaped name, NUL-terminated.
    pub key: Vec<u8>,
    pub key_size: usize,
    /// The unescaped name, ending in NUL.
    pub ukey: Vec<u8>,
    pub key_u_size: usize,
    pub ks_reference: usize,
    pub flags: i32,
}

/// `f` is the foreign layout of a key with namespace `ns`, path `p` and
/// value `v`.
pub open spec fn lays_out(f: ForeignKey, ns: KeyNamespace, p: Seq<char>, v: Option<Seq<u8>>) -> bool {
    &&& f.key@ == name_bytes(ns, p).push(0u8)
    &&& f.key_size == f.key@.len()
    &&& f.ukey@ == unescaped_bytes(ns, p)
    &&& f.key_u_size == f.ukey@.len()
    &&& bytes_view(f.data) == v
    &&& f.data_size == match v {
        Some(b) => b.len(),
        None => 0,
    }
    &&& f.ks_reference == 0
    &&& f.flags == 0
}

/// What reading `f` back gives: the name is what a C string reader sees of
/// the escaped name, decoded as UTF-8 and parsed; the value is copied.
pub open spec fn read_back(f: ForeignKey) -> Result<(KeyNamespace, Seq<char>, Option<Seq<u8>>), KeyError> {
    let nb = cstr_bytes(f.key@);
    if !valid_utf8(nb) {
        Err(KeyError::ConversionError)
    } else {
        match parse_name(decode_utf8(nb)) {
            Some((ns, p)) => Ok((ns, p, bytes_view(f.data))),
            None => Err(KeyError::InvalidNameError),
        }
    }
}

/// The first NUL found by a scan is where `nul_index` puts it.
pub proof fn lemma_nul_index(b: Seq<u8>, i: int)
    requires
        0 <= i <= b.len(),
        forall|j: int| 0 <= j < i ==> b[j] != 0,
        i == b.len() || b[i] == 0,
    ensures
        nul_index(b) == i,
    decreases i,
{
    if i > 0 {
        let t = b.drop_first();
        assert forall|j: int| 0 <= j < i - 1 implies t[j] != 0 by {
            assert(t[j] == b[j + 1]);
        }
        if i < b.len() {
            assert(t[i - 1] == b[i]);
        }
        lemma_nul_index(t, i - 1);
    }
}

/// Index of the first NUL in `b`, or its length.
fn find_nul(b: &[u8]) -> (r: usize)
    ensures
        r as int == nul_index(b@),
        r <= b@.len(),
        forall|j: int| 0 <= j < r ==> b@[j] != 0,
        r < b@.len() ==> b@[r as int] == 0,
{
    let mut i: usize = 0;
    while i < b.len()
        invariant
            i <= b@.len(),
            forall|j: int| 0 <= j < i ==> b@[j] != 0,
        decreases b@.len() - i,
    {
        if b[i] == 0 {
            proof {
                lemma_nul_index(b@, i as int);
            }
            return i;
        }
        i = i + 1;
    }
    proof {
        lemma_nul_index(b@, i as int);
    }
    i
}

/// The unescaped name of `path` in namespace `ns`.
fn unescaped_name(ns: KeyNamespace, path: &str) -> (r: Vec<u8>)
    ensures
        r@ == unescaped_bytes(ns, path@),
{
    let b = path.as_bytes();
    let mut out: Vec<u8> = Vec::new();
    let c = ns.code();
    out.push(c as u8);
    out.push(0u8);
    let mut i: usize = 0;
    while i < b.len()
        invariant
            i <= b@.len(),
            b@ == encode_utf8(path@),
            c as int == code_of(ns),
            out@ == seq![c as u8, 0u8] + b@.take(i as int).map_values(|x: u8| sep_to_nul(x)),
        decreases b@.len() - i,
    {
        let x = b[i];
        let y: u8 = if x == 0x2f {
            0
        } else {
            x
        };
        out.push(y);
        i = i + 1;
        proof {
            assert(b@.take(i as int).map_values(|x: u8| sep_to_nul(x)) =~= b@.take(i - 1).map_values(
                |x: u8| sep_to_nul(x),
            ).push(y));
        }
    }
    out.push(0u8);
    proof {
        assert(b@.take(i as int) =~= b@);
        assert(out@ =~= unescaped_bytes(ns, path@));
    }
    out
}

/// Lays `key` out for the foreign side, consuming it: its name and value are
/// copied into new buffers that the result alone owns, and the key is
/// dropped. Fails when the name holds a NUL, which a C string cannot carry.
pub fn to_foreign(key: Key) -> (r: Result<ForeignKey, KeyError>)
    ensures
        has_nul(name_bytes(key.spec_name().spec_ns(), key.spec_path())) ==> r == Err::<
            ForeignKey,
            KeyError,
        >(KeyError::ConversionError),
        !has_nul(name_bytes(key.spec_name().spec_ns(), key.spec_path())) ==> (r matches Ok(f)
            && lays_out(f, key.spec_name().spec_ns(), key.spec_path(), key.spec_value())),
{
    let text = key.name().to_string();
    let nb = text.as_str().as_bytes();
    let n = find_nul(nb);
    if n < nb.len() {
        return Err(KeyError::ConversionError);
    }
    let mut name = slice_to_vec(nb);
    name.push(0u8);
    let key_size = name.len();
    let ukey = unescaped_name(key.name().namespace(), key.name().path_str());
    let key_u_size = ukey.len();
    let (data, data_size) = match key.value() {
        Some(v) => (Some(slice_to_vec(v)), v.len()),
        None => (None, 0),
    };
    Ok(ForeignKey { data, data_size, key: name, key_size, ukey, key_u_size, ks_reference: 0, flags: 0 })
}

/// Reads a key back from its foreign layout, copying what it needs; `f`
/// keeps its buffers.
pub fn from_foreign(f: &ForeignKey) -> (r: Result<Key, KeyError>)
    ensures
        match read_back(*f) {
            Ok((ns, p, v)) => r matches Ok(k) && k.spec_name().spec_ns() == ns && k.spec_path() == p
                && k.spec_value() == v,
            Err(e) => r == Err::<Key, KeyError>(e),
        },
{
    let all = f.key.as_slice();
    let n = find_nul(all);
    let nb = slice_subrange(all, 0, n);
    match utf8_text(nb) {
        None => Err(KeyError::ConversionError),
        Some(text) => {
            let value = match &f.data {
                Some(d) => Some(d.as_slice()),
                None => None,
            };
            Key::parse(text, value)
        },
    }
}

/// Replaces what `target` holds by the layout of `key`, and returns the
/// former contents, which the caller then releases: the new contents are in
/// place before anything old is let go. On failure `target` is unchanged.
pub fn overwrite(target: &mut ForeignKey, key: Key) -> (r: Result<ForeignKey, KeyError>)
    ensures
        match to_foreign_result(key) {
            Some(()) => r matches Ok(prev) && prev == *old(target) && lays_out(
                *final(target),
                key.spec_name().spec_ns(),
                key.spec_path(),
                key.spec_value(),
            ),
            None => r == Err::<ForeignKey, KeyError>(KeyError::ConversionError) && *final(target)
                == *old(target),
        },
{
    match to_foreign(key) {
        Ok(f) => {
            let mut prev = f;
            std::mem::swap(target, &mut prev);
            Ok(prev)
        },
        Err(e) => Err(e),
    }
}

/// Whether `key` can be laid out.
pub open spec fn to_foreign_result(key: Key) -> Option<()> {
    if has_nul(name_bytes(key.spec_name().spec_ns(), key.spec_path())) {
        None
    } else {
        Some(())
    }
}

/// Laying a key out and reading it back gives the same namespace, path and
/// value.
pub proof fn lemma_bridge_round_trip(f: ForeignKey, ns: KeyNamespace, p: Seq<char>, v: Option<Seq<u8>>)
    requires
        is_normal(p),
        !has_nul(name_bytes(ns, p)),
        lays_out(f, ns, p, v),
    ensures
        read_back(f) == Ok::<(KeyNamespace, Seq<char>, Option<Seq<u8>>), KeyError>((ns, p, v)),
{
    let nb = name_bytes(ns, p);
    let b = nb.push(0u8);
    assert forall|j: int| 0 <= j < nb.len() implies b[j] != 0 by {
        assert(b[j] == nb[j]);
    }
    lemma_nul_index(b, nb.len() as int);
    assert(cstr_bytes(f.key@) =~= nb);
    encode_utf8_valid_utf8(format_name(ns, p));
    encode_utf8_decode_utf8(format_name(ns, p));
    lemma_parse_format(ns, p);
}

/// `f` is the foreign layout of `k`.
pub open spec fn lays_out_key(f: ForeignKey, k: Key) -> bool {
    lays_out(f, k.spec_name().spec_ns(), k.spec_path(), k.spec_value())
}

/// The name of `k` can be a C string.
pub open spec fn nul_free(k: Key) -> bool {
    !has_nul(name_bytes(k.spec_name().spec_ns(), k.spec_path()))
}

/// `f` reads back to the namespace, path and value of `k`.
pub open spec fn reads_back_as(f: ForeignKey, k: Key) -> bool {
    read_back(f) == Ok::<(KeyNamespace, Seq<char>, Option<Seq<u8>>), KeyError>(
        (k.spec_name().spec_ns(), k.spec_path(), k.spec_value()),
    )
}

/// The contents of the foreign layout of a key set: its keys in order, the
/// element count and capacity, the iteration cursor, flags and the
/// reference count.
pub struct ForeignKeySet {
    pub keys: Vec<ForeignKey>,
    pub size: usize,
    pub alloc: usize,
    pub current: usize,
    pub flags: i32,
    pub refs: u16,
    pub reserved: u16,
}

/// Lays a key set out for the foreign side, consuming it, keys in their
/// order; fails when some key name cannot be a C string.
pub fn keyset_to_foreign(ks: KeySet) -> (r: Result<ForeignKeySet, KeyError>)
    requires
        ks.wf(),
    ensures
        (forall|i: int| 0 <= i < ks.spec_keys().len() ==> nul_free(#[trigger] ks.spec_keys()[i]))
            ==> (r matches Ok(f) && f.keys@.len() == ks.spec_keys().len() && f.size
            == f.keys@.len() && f.alloc == f.keys@.len() && f.current == 0 && f.flags == 0
            && f.refs == ks.spec_refs() && f.reserved == 0 && forall|i: int|
            0 <= i < f.keys@.len() ==> lays_out_key(#[trigger] f.keys@[i], ks.spec_keys()[i])),
        (exists|i: int| 0 <= i < ks.spec_keys().len() && !nul_free(#[trigger] ks.spec_keys()[i]))
            ==> r == Err::<ForeignKeySet, KeyError>(KeyError::ConversionError),
{
    let ghost all = ks.spec_keys();
    let refs = ks.reference_counter();
    let mut rest = ks;
    let mut out: Vec<ForeignKey> = Vec::new();
    while rest.len() > 0
        invariant
            rest.wf(),
            all == ks.spec_keys(),
            out@.len() <= all.len(),
            rest.spec_keys() == all.skip(out@.len() as int),
            forall|i: int| 0 <= i < out@.len() ==> lays_out_key(#[trigger] out@[i], all[i]),
            forall|i: int| 0 <= i < out@.len() ==> nul_free(#[trigger] all[i]),
        decreases rest.spec_keys().len(),
    {
        let ghost n: int = out@.len() as int;
        let ghost prev = out@;
        match rest.remove(0) {
            Some(k) => {
                proof {
                    assert(k == all[n]);
                    assert(rest.spec_keys() =~= all.skip(n + 1));
                }
                match to_foreign(k) {
                    Ok(f) => {
                        out.push(f);
                        proof {
                            assert forall|i: int| 0 <= i < out@.len() implies lays_out_key(#[trigger] out@[i], all[i]) by {
                                if i < n {
                                    assert(out@[i] == prev[i]);
                                }
                            }
                        }
                    },
                    Err(e) => {
                        proof {
                            assert(!nul_free(all[n]));
                        }
                        return Err(e);
                    },
                }
            },
            None => {},
        }
    }
    proof {
        assert(out@.len() == all.len());
    }
    let n = out.len();
    Ok(ForeignKeySet { keys: out, size: n, alloc: n, current: 0, flags: 0, refs, reserved: 0 })
}

/// Reads a key set back from its foreign layout, appending the keys in
/// order (a later key with a path already read is dropped); fails with the
/// first key that cannot be read back.
pub fn keyset_from_foreign(f: &ForeignKeySet) -> (r: Result<KeySet, KeyError>)
    ensures
        (forall|i: int| 0 <= i < f.keys@.len() ==> (#[trigger] read_back(f.keys@[i])) is Ok) ==> (
        r matches Ok(ks) && ks.wf() && ks.spec_refs() == f.refs && exists|built: Seq<Key>|
            built.len() == f.keys@.len() && (forall|i: int|
                0 <= i < built.len() ==> reads_back_as(f.keys@[i], #[trigger] built[i]))
                && ks.spec_keys() == collected(built)),
        r matches Err(e) ==> exists|i: int|
            0 <= i < f.keys@.len() && #[trigger] read_back(f.keys@[i]) == Err::<
                (KeyNamespace, Seq<char>, Option<Seq<u8>>),
                KeyError,
            >(e),
{
    let mut ks = KeySet::new();
    ks.set_reference_counter(f.refs);
    let ghost mut built: Seq<Key> = seq![];
    let mut i: usize = 0;
    while i < f.keys.len()
        invariant
            ks.wf(),
            ks.spec_refs() == f.refs,
            i <= f.keys@.len(),
            built.len() == i,
            forall|j: int| 0 <= j < i ==> reads_back_as(f.keys@[j], #[trigger] built[j]),
            ks.spec_keys() == collected(built),
        decreases f.keys@.len() - i,
    {
        match from_foreign(&f.keys[i]) {
            Ok(k) => {
                proof {
                    assert(built.push(k).drop_last() =~= built);
                    built = built.push(k);
                }
                ks.append(k);
            },
            Err(e) => {
                return Err(e);
            },
        }
        i = i + 1;
    }
    Ok(ks)
}

} // verus!
