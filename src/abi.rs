//! The decisions behind the foreign entry points, on the plain-value layout
//! of keys: each takes what the foreign structure holds and returns the
//! result code, or the new contents the caller installs in its place.
use crate::foreign::{
    from_foreign, has_nul, lays_out, name_bytes, read_back, to_foreign, to_foreign_ns,
    elektraNamespace, from_foreign_ns, ForeignKey,
};
use crate::key::{below, Key, KeyError};
use crate::name::{base_of, parent_of, parse_name};
use crate::namespace::KeyNamespace;
use crate::path::{normal_path, path_cmp, push_text};
use std::cmp::Ordering;
use vstd::prelude::*;

verus! {

/// `NAME` in the list of flags of a new key.
pub const KEY_NAME: i32 = 1;

/// `VALUE` in the list of flags of a new key.
pub const KEY_VALUE: i32 = 2;

/// `NAME` and `VALUE` together.
pub const KEY_FLAGS: i32 = 3;

/// What the flag list of a new key asks for.
#[derive(Copy, Clone, PartialEq, Eq, Debug, Structural)]
pub struct KeyNewOptions {
    /// A `NAME` flag was seen.
    pub name: bool,
    /// A `VALUE` flag was seen.
    pub value: bool,
    /// How many flags were read before the scan stopped.
    pub consumed: usize,
}

/// A flag the scan takes: `NAME`, `VALUE`, or both.
pub open spec fn known_flag(f: i32) -> bool {
    f == 1 || f == 2 || f == 3
}

/// Where the scan stops: at the first flag that is 0 or not known.
pub open spec fn scan_end(flags: Seq<i32>) -> int
    decreases flags.len(),
{
    if flags.len() == 0 || !known_flag(flags[0]) {
        0
    } else {
        1 + scan_end(flags.drop_first())
    }
}

/// Reads a zero-terminated flag list once: `NAME` = 1, `VALUE` = 2, both = 3;
/// the scan ends at 0, at an unknown flag, or at the end of the list.
pub fn scan_new_flags(flags: &[i32]) -> (r: KeyNewOptions)
    ensures
        r.consumed == scan_end(flags@),
        r.name == exists|i: int| 0 <= i < r.consumed && (flags@[i] == 1 || flags@[i] == 3),
        r.value == exists|i: int| 0 <= i < r.consumed && (flags@[i] == 2 || flags@[i] == 3),
{
    let mut i: usize = 0;
    let mut name = false;
    let mut value = false;
    proof {
        assert(flags@.skip(0) =~= flags@);
    }
    while i < flags.len() && (flags[i] == KEY_NAME || flags[i] == KEY_VALUE || flags[i] == KEY_FLAGS)
        invariant
            i <= flags@.len(),
            forall|j: int| 0 <= j < i ==> known_flag(#[trigger] flags@[j]),
            scan_end(flags@) == i + scan_end(flags@.skip(i as int)),
            name == exists|j: int| 0 <= j < i && (flags@[j] == 1 || flags@[j] == 3),
            value == exists|j: int| 0 <= j < i && (flags@[j] == 2 || flags@[j] == 3),
        decreases flags@.len() - i,
    {
        let f = flags[i];
        if f == KEY_NAME || f == KEY_FLAGS {
            name = true;
        }
        if f == KEY_VALUE || f == KEY_FLAGS {
            value = true;
        }
        proof {
            let s = flags@.skip(i as int);
            assert(s[0] == f);
            assert(s.drop_first() =~= flags@.skip(i + 1));
        }
        i = i + 1;
        proof {
            if name {
                if !(f == 1 || f == 3) {
                    let j = choose|j: int| 0 <= j < i - 1 && (flags@[j] == 1 || flags@[j] == 3);
                    assert(0 <= j < i && (flags@[j] == 1 || flags@[j] == 3));
                } else {
                    assert(0 <= i - 1 < i && (flags@[i - 1] == 1 || flags@[i - 1] == 3));
                }
            }
            if value {
                if !(f == 2 || f == 3) {
                    let j = choose|j: int| 0 <= j < i - 1 && (flags@[j] == 2 || flags@[j] == 3);
                    assert(0 <= j < i && (flags@[j] == 2 || flags@[j] == 3));
                } else {
                    assert(0 <= i - 1 < i && (flags@[i - 1] == 2 || flags@[i - 1] == 3));
                }
            }
        }
    }
    proof {
        let s = flags@.skip(i as int);
        if i < flags@.len() {
            assert(s[0] == flags@[i as int]);
        } else {
            assert(s.len() == 0);
        }
    }
    KeyNewOptions { name, value, consumed: i }
}

/// `r` is the layout of a key with namespace `ns`, path `p` and value `v`,
/// or the conversion error when the name cannot be a C string.
pub open spec fn laid_out(r: Result<ForeignKey, KeyError>, ns: KeyNamespace, p: Seq<char>, v: Option<Seq<u8>>) -> bool {
    if has_nul(name_bytes(ns, p)) {
        r == Err::<ForeignKey, KeyError>(KeyError::ConversionError)
    } else {
        r matches Ok(g) && lays_out(g, ns, p, v)
    }
}

/// A new key named `name`, without value, laid out; none when the name does
/// not parse or cannot be a C string.
pub fn key_new(name: &str) -> (r: Option<ForeignKey>)
    ensures
        match parse_name(name@) {
            Some((ns, p)) => if has_nul(name_bytes(ns, p)) {
                r is None
            } else {
                r matches Some(g) && lays_out(g, ns, p, None)
            },
            None => r is None,
        },
{
    match Key::from_str(name) {
        Ok(k) => match to_foreign(k) {
            Ok(f) => Some(f),
            Err(_) => None,
        },
        Err(_) => None,
    }
}

/// The order of two ordered values as -1, 0 or 1.
pub open spec fn order_code(o: Ordering) -> i32 {
    match o {
        Ordering::Less => -1i32,
        Ordering::Equal => 0i32,
        Ordering::Greater => 1i32,
    }
}

/// Compares the names of two keys by path: -1, 0 or 1; -1 as well when
/// either cannot be read back.
pub fn compare_name(k1: &ForeignKey, k2: &ForeignKey) -> (r: i32)
    ensures
        match (read_back(*k1), read_back(*k2)) {
            (Ok((_, pa, _)), Ok((_, pb, _))) => r == order_code(path_cmp(pa, pb)),
            _ => r == -1,
        },
{
    let a = match from_foreign(k1) {
        Ok(x) => x,
        Err(_) => return -1,
    };
    let b = match from_foreign(k2) {
        Ok(x) => x,
        Err(_) => return -1,
    };
    match a.cmp(&b) {
        Ordering::Less => -1,
        Ordering::Equal => 0,
        Ordering::Greater => 1,
    }
}

/// 1 when `check` sorts after `key`, else 0; -1 when either cannot be read
/// back.
pub fn is_below(key: &ForeignKey, check: &ForeignKey) -> (r: i32)
    ensures
        match (read_back(*key), read_back(*check)) {
            (Ok((_, pa, _)), Ok((_, pb, _))) => r == if below(pa, pb) {
                1i32
            } else {
                0i32
            },
            _ => r == -1,
        },
{
    let a = match from_foreign(key) {
        Ok(x) => x,
        Err(_) => return -1,
    };
    let b = match from_foreign(check) {
        Ok(x) => x,
        Err(_) => return -1,
    };
    if a.is_below(&b) {
        1
    } else {
        0
    }
}

/// 1 when `check` sorts after `key` or equal to it, else 0; -1 when either
/// cannot be read back.
pub fn is_below_or_same(key: &ForeignKey, check: &ForeignKey) -> (r: i32)
    ensures
        match (read_back(*key), read_back(*check)) {
            (Ok((_, pa, _)), Ok((_, pb, _))) => r == if path_cmp(pa, pb) != Ordering::Greater {
                1i32
            } else {
                0i32
            },
            _ => r == -1,
        },
{
    let a = match from_foreign(key) {
        Ok(x) => x,
        Err(_) => return -1,
    };
    let b = match from_foreign(check) {
        Ok(x) => x,
        Err(_) => return -1,
    };
    if a.is_below_or_same(&b) {
        1
    } else {
        0
    }
}

/// The contents that give `f` the name `newname`, keeping its value.
pub fn set_name(f: &ForeignKey, newname: &str) -> (r: Result<ForeignKey, KeyError>)
    ensures
        match (parse_name(newname@), read_back(*f)) {
            (None, _) => r == Err::<ForeignKey, KeyError>(KeyError::InvalidNameError),
            (Some(_), Err(e)) => r == Err::<ForeignKey, KeyError>(e),
            (Some((ns, p)), Ok((_, _, v))) => laid_out(r, ns, p, v),
        },
{
    let mut k = match from_foreign(f) {
        Ok(x) => x,
        Err(e) => {
            if parse_name_fails(newname) {
                return Err(KeyError::InvalidNameError);
            }
            return Err(e);
        },
    };
    match k.set_name(newname) {
        Ok(()) => to_foreign(k),
        Err(e) => Err(e),
    }
}

/// `name` does not parse as a key name.
fn parse_name_fails(name: &str) -> (r: bool)
    ensures
        r == parse_name(name@) is None,
{
    match Key::from_str(name) {
        Ok(_) => false,
        Err(_) => true,
    }
}

/// The contents that give `f` its path with `name` appended.
pub fn add_name(f: &ForeignKey, name: &str) -> (r: Result<ForeignKey, KeyError>)
    ensures
        match read_back(*f) {
            Err(e) => r == Err::<ForeignKey, KeyError>(e),
            Ok((ns, p, v)) => laid_out(r, ns, normal_path(push_text(p, name@)), v),
        },
{
    let mut k = match from_foreign(f) {
        Ok(x) => x,
        Err(e) => return Err(e),
    };
    k.name_mut().append_name(name);
    to_foreign(k)
}

/// The contents that give `f` the base name `base`.
pub fn set_base_name(f: &ForeignKey, base: &str) -> (r: Result<ForeignKey, KeyError>)
    ensures
        match read_back(*f) {
            Err(e) => r == Err::<ForeignKey, KeyError>(e),
            Ok((ns, p, v)) => laid_out(r, ns, normal_path(push_text(parent_of(p), base@)), v),
        },
{
    let mut k = match from_foreign(f) {
        Ok(x) => x,
        Err(e) => return Err(e),
    };
    k.name_mut().set_base_name(base);
    to_foreign(k)
}

/// The size of the base name of `f` with its NUL; 1 for the root path, -1
/// when `f` cannot be read back.
pub fn base_name_size(f: &ForeignKey) -> (r: isize)
    ensures
        match read_back(*f) {
            Err(_) => r == -1,
            Ok((_, p, _)) => match base_of(p) {
                Some(b) => if vstd::utf8::encode_utf8(b).len() < isize::MAX {
                    r == vstd::utf8::encode_utf8(b).len() + 1
                } else {
                    r == -1
                },
                None => r == 1,
            },
        },
{
    let k = match from_foreign(f) {
        Ok(x) => x,
        Err(_) => return -1,
    };
    match k.name().base_name() {
        Some(b) => {
            let n = b.as_bytes().len();
            if n >= isize::MAX as usize {
                return -1;
            }
            (n + 1) as isize
        },
        None => 1,
    }
}

/// The namespace of `f`; `KEY_NS_NONE` when it cannot be read back.
pub fn namespace(f: &ForeignKey) -> (r: elektraNamespace)
    ensures
        match read_back(*f) {
            Err(_) => r == elektraNamespace::KEY_NS_NONE,
            Ok((ns, _, _)) => r == to_foreign_ns(ns),
        },
{
    match from_foreign(f) {
        Ok(k) => elektraNamespace::from(k.name().namespace()),
        Err(_) => elektraNamespace::KEY_NS_NONE,
    }
}

/// The contents that put `f` in namespace `ns`.
pub fn set_namespace(f: &ForeignKey, ns: elektraNamespace) -> (r: Result<ForeignKey, KeyError>)
    ensures
        match read_back(*f) {
            Err(e) => r == Err::<ForeignKey, KeyError>(e),
            Ok((_, p, v)) => laid_out(r, from_foreign_ns(ns), p, v),
        },
{
    let mut k = match from_foreign(f) {
        Ok(x) => x,
        Err(e) => return Err(e),
    };
    k.name_mut().set_namespace(KeyNamespace::from(ns));
    to_foreign(k)
}

/// The value size of `f`: 0 without value, -1 when `f` cannot be read back.
pub fn value_size(f: &ForeignKey) -> (r: isize)
    ensures
        match read_back(*f) {
            Err(_) => r == -1,
            Ok((_, _, None)) => r == 0,
            Ok((_, _, Some(b))) => if b.len() < isize::MAX {
                r == b.len()
            } else {
                r == -1
            },
        },
{
    let k = match from_foreign(f) {
        Ok(x) => x,
        Err(_) => return -1,
    };
    match k.value() {
        Some(v) => {
            if v.len() >= isize::MAX as usize {
                return -1;
            }
            v.len() as isize
        },
        None => 0,
    }
}

/// The contents that give `f` the value `value`.
pub fn set_value(f: &ForeignKey, value: &[u8]) -> (r: Result<ForeignKey, KeyError>)
    ensures
        match read_back(*f) {
            Err(e) => r == Err::<ForeignKey, KeyError>(e),
            Ok((ns, p, _)) => laid_out(r, ns, p, Some(value@)),
        },
{
    let mut k = match from_foreign(f) {
        Ok(x) => x,
        Err(e) => return Err(e),
    };
    k.set_value(value);
    to_foreign(k)
}

/// `f` reads back to a key with path `p`.
pub open spec fn has_path(f: ForeignKey, p: Seq<char>) -> bool {
    read_back(f) matches Ok((_, q, _)) && q == p
}

/// The first position in `keys` of a key with path `p`.
fn position_of_path(keys: &Vec<ForeignKey>, p: &Key) -> (r: Option<usize>)
    ensures
        r matches Some(i) ==> i < keys@.len() && has_path(keys@[i as int], p.spec_path()) && forall|
            j: int,
        | 0 <= j < i ==> !has_path(#[trigger] keys@[j], p.spec_path()),
        r is None ==> forall|j: int|
            0 <= j < keys@.len() ==> !has_path(#[trigger] keys@[j], p.spec_path()),
{
    let mut i: usize = 0;
    while i < keys.len()
        invariant
            i <= keys@.len(),
            forall|j: int| 0 <= j < i ==> !has_path(#[trigger] keys@[j], p.spec_path()),
        decreases keys@.len() - i,
    {
        match from_foreign(&keys[i]) {
            Ok(k) => {
                if k == *p {
                    return Some(i);
                }
            },
            Err(_) => {},
        }
        i = i + 1;
    }
    None
}

/// The first position in `keys` of a key with the path of `target`; none
/// when there is no such key or `target` cannot be read back.
pub fn find_key(keys: &Vec<ForeignKey>, target: &ForeignKey) -> (r: Option<usize>)
    ensures
        match read_back(*target) {
            Err(_) => r is None,
            Ok((_, p, _)) => match r {
                Some(i) => i < keys@.len() && has_path(keys@[i as int], p) && forall|j: int|
                    0 <= j < i ==> !has_path(#[trigger] keys@[j], p),
                None => forall|j: int| 0 <= j < keys@.len() ==> !has_path(#[trigger] keys@[j], p),
            },
        },
{
    match from_foreign(target) {
        Ok(k) => position_of_path(keys, &k),
        Err(_) => None,
    }
}

/// The first position in `keys` of a key with the path `name` parses to;
/// none when there is no such key or `name` does not parse.
pub fn find_name(keys: &Vec<ForeignKey>, name: &str) -> (r: Option<usize>)
    ensures
        match parse_name(name@) {
            None => r is None,
            Some((_, p)) => match r {
                Some(i) => i < keys@.len() && has_path(keys@[i as int], p) && forall|j: int|
                    0 <= j < i ==> !has_path(#[trigger] keys@[j], p),
                None => forall|j: int| 0 <= j < keys@.len() ==> !has_path(#[trigger] keys@[j], p),
            },
        },
{
    match Key::from_str(name) {
        Ok(k) => position_of_path(keys, &k),
        Err(_) => None,
    }
}

} // verus!
