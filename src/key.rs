//! Keys: a name with an optional byte value, compared by path alone.
use crate::name::{parse_name, KeyName};
use crate::path::{compare_paths, path_cmp};
use std::cmp::Ordering;
use vstd::prelude::*;
use vstd::slice::slice_to_vec;
use vstd::utf8::{decode_utf8, encode_utf8, valid_utf8};

verus! {

/// Why a key could not be built or converted.
#[derive(Copy, Clone, PartialEq, Eq, Debug, Structural)]
pub enum KeyError {
    /// The text is not `<namespace>:<path>` with both parts non-empty.
    InvalidNameError,
    /// A required handle was missing.
    NullPointerError,
    /// Foreign bytes are not valid UTF-8 or not a valid name.
    ConversionError,
}

/// The text `String::from_utf8_lossy` makes of some bytes.
pub uninterp spec fn lossy_text(b: Seq<u8>) -> Seq<char>;

/// Relies on `String::from_utf8_lossy`: valid UTF-8 is decoded as it is,
/// invalid sequences become replacement characters.
#[verifier::external_body]
fn utf8_lossy(b: &[u8]) -> (r: String)
    ensures
        r@ == lossy_text(b@),
        valid_utf8(b@) ==> r@ == decode_utf8(b@),
{
    String::from_utf8_lossy(b).into_owned()
}

/// `a` sorts strictly before `b`.
pub open spec fn below(a: Seq<char>, b: Seq<char>) -> bool {
    path_cmp(a, b) == Ordering::Less
}

/// A name with an optional value of any bytes.
#[derive(Debug)]
pub struct Key {
    name: KeyName,
    value: Option<Vec<u8>>,
}

/// The bytes of an optional value.
pub open spec fn value_view(v: Option<&[u8]>) -> Option<Seq<u8>> {
    match v {
        Some(b) => Some(b@),
        None => None,
    }
}

impl Key {
    pub closed spec fn spec_name(&self) -> KeyName {
        self.name
    }

    pub closed spec fn spec_value(&self) -> Option<Seq<u8>> {
        match self.value {
            Some(v) => Some(v@),
            None => None,
        }
    }

    pub open spec fn spec_path(&self) -> Seq<char> {
        self.spec_name().spec_path()
    }

    /// A key with `key_name` and no value.
    pub fn new(key_name: KeyName) -> (r: Key)
        ensures
            r.spec_name() == key_name,
            r.spec_value() == None::<Seq<u8>>,
    {
        Key { name: key_name, value: None }
    }

    /// Builds a key from a name text and an optional value; fails only when
    /// the name does not parse.
    pub fn parse(text: &str, value: Option<&[u8]>) -> (r: Result<Key, KeyError>)
        ensures
            match parse_name(text@) {
                Some((ns, p)) => r matches Ok(k) && k.spec_name().spec_ns() == ns
                    && k.spec_path() == p && k.spec_value() == value_view(value),
                None => r == Err::<Key, KeyError>(KeyError::InvalidNameError),
            },
    {
        match KeyName::from_str(text) {
            Ok(name) => {
                let value = match value {
                    Some(b) => Some(slice_to_vec(b)),
                    None => None,
                };
                Ok(Key { name, value })
            },
            Err(e) => Err(e),
        }
    }

    /// A key without value from a name text.
    pub fn from_str(s: &str) -> (r: Result<Key, KeyError>)
        ensures
            match parse_name(s@) {
                Some((ns, p)) => r matches Ok(k) && k.spec_name().spec_ns() == ns
                    && k.spec_path() == p && k.spec_value() == None::<Seq<u8>>,
                None => r == Err::<Key, KeyError>(KeyError::InvalidNameError),
            },
    {
        Key::parse(s, None)
    }

    pub fn name(&self) -> (r: &KeyName)
        ensures
            *r == self.spec_name(),
    {
        &self.name
    }

    /// The name, for changing in place; the value stays.
    pub fn name_mut(&mut self) -> (r: &mut KeyName)
        ensures
            *r == old(self).spec_name(),
            final(self).spec_name() == *final(r),
            final(self).spec_value() == old(self).spec_value(),
    {
        &mut self.name
    }

    /// Replaces the name by the one `name` parses to; on a parse failure the
    /// key is left as it was.
    pub fn set_name(&mut self, name: &str) -> (r: Result<(), KeyError>)
        ensures
            final(self).spec_value() == old(self).spec_value(),
            match parse_name(name@) {
                Some((ns, p)) => r is Ok && final(self).spec_name().spec_ns() == ns
                    && final(self).spec_path() == p,
                None => r == Err::<(), KeyError>(KeyError::InvalidNameError) && *final(self)
                    == *old(self),
            },
    {
        match KeyName::from_str(name) {
            Ok(n) => {
                self.name = n;
                Ok(())
            },
            Err(e) => Err(e),
        }
    }

    pub fn set_keyname(&mut self, name: KeyName)
        ensures
            final(self).spec_name() == name,
            final(self).spec_value() == old(self).spec_value(),
    {
        self.name = name;
    }

    pub fn set_value(&mut self, value: &[u8])
        ensures
            final(self).spec_name() == old(self).spec_name(),
            final(self).spec_value() == Some(value@),
    {
        self.value = Some(slice_to_vec(value));
    }

    /// Stores the UTF-8 bytes of `value`.
    pub fn set_value_str(&mut self, value: &str)
        ensures
            final(self).spec_name() == old(self).spec_name(),
            final(self).spec_value() == Some(encode_utf8(value@)),
    {
        self.value = Some(slice_to_vec(value.as_bytes()));
    }

    pub fn value(&self) -> (r: Option<&[u8]>)
        ensures
            value_view(r) == self.spec_value(),
    {
        match &self.value {
            Some(v) => Some(v.as_slice()),
            None => None,
        }
    }

    /// The value as text, with invalid UTF-8 replaced.
    pub fn value_to_string(&self) -> (r: Option<String>)
        ensures
            r.is_some() == self.spec_value().is_some(),
            r matches Some(t) ==> t@ == lossy_text(self.spec_value().unwrap()),
    {
        match &self.value {
            Some(v) => Some(utf8_lossy(v.as_slice())),
            None => None,
        }
    }

    /// Orders keys by path, segment by segment; the namespace plays no part.
    pub fn cmp(&self, other: &Key) -> (r: Ordering)
        ensures
            r == path_cmp(self.spec_path(), other.spec_path()),
    {
        compare_paths(self.name.path_str(), other.name.path_str())
    }

    /// `check` sorts after this key.
    pub fn is_below(&self, check: &Key) -> (r: bool)
        ensures
            r == below(self.spec_path(), check.spec_path()),
    {
        match self.cmp(check) {
            Ordering::Less => true,
            _ => false,
        }
    }

    /// `check` sorts after this key or equal to it.
    pub fn is_below_or_same(&self, check: &Key) -> (r: bool)
        ensures
            r == (path_cmp(self.spec_path(), check.spec_path()) != Ordering::Greater),
    {
        match self.cmp(check) {
            Ordering::Greater => false,
            _ => true,
        }
    }
}

impl PartialEq for Key {
    fn eq(&self, other: &Key) -> (r: bool) {
        let a = self.name.path_str().to_owned();
        let b = other.name.path_str().to_owned();
        a == b
    }
}

impl vstd::std_specs::cmp::PartialEqSpecImpl for Key {
    open spec fn obeys_eq_spec() -> bool {
        true
    }

    open spec fn eq_spec(&self, other: &Key) -> bool {
        self.spec_path() == other.spec_path()
    }
}

impl Eq for Key {}

impl PartialOrd for Key {
    fn partial_cmp(&self, other: &Key) -> (r: Option<Ordering>) {
        Some(self.cmp(other))
    }
}

impl vstd::std_specs::cmp::PartialOrdSpecImpl for Key {
    open spec fn obeys_partial_cmp_spec() -> bool {
        true
    }

    open spec fn partial_cmp_spec(&self, other: &Key) -> Option<Ordering> {
        Some(path_cmp(self.spec_path(), other.spec_path()))
    }
}

/// Collects a name and an optional value, then builds the key.
pub struct KeyBuilder {
    name: KeyName,
    value: Option<Vec<u8>>,
}

impl KeyBuilder {
    pub closed spec fn spec_name(&self) -> KeyName {
        self.name
    }

    pub closed spec fn spec_value(&self) -> Option<Seq<u8>> {
        match self.value {
            Some(v) => Some(v@),
            None => None,
        }
    }

    pub fn new(key_name: KeyName) -> (r: KeyBuilder)
        ensures
            r.spec_name() == key_name,
            r.spec_value() == None::<Seq<u8>>,
    {
        KeyBuilder { name: key_name, value: None }
    }

    /// A builder for the name `name` parses to.
    pub fn from_str(name: &str) -> (r: Result<KeyBuilder, KeyError>)
        ensures
            match parse_name(name@) {
                Some((ns, p)) => r matches Ok(b) && b.spec_name().spec_ns() == ns
                    && b.spec_name().spec_path() == p && b.spec_value() == None::<Seq<u8>>,
                None => r == Err::<KeyBuilder, KeyError>(KeyError::InvalidNameError),
            },
    {
        match KeyName::from_str(name) {
            Ok(n) => Ok(KeyBuilder { name: n, value: None }),
            Err(e) => Err(e),
        }
    }

    pub fn value(self, value: &[u8]) -> (r: KeyBuilder)
        ensures
            r.spec_name() == self.spec_name(),
            r.spec_value() == Some(value@),
    {
        KeyBuilder { name: self.name, value: Some(slice_to_vec(value)) }
    }

    /// The key; building never fails.
    pub fn build(self) -> (r: Result<Key, KeyError>)
        ensures
            r matches Ok(k) && k.spec_name() == self.spec_name() && k.spec_value()
                == self.spec_value(),
    {
        Ok(Key { name: self.name, value: self.value })
    }
}

impl std::str::FromStr for Key {
    type Err = KeyError;

    fn from_str(s: &str) -> Result<Key, KeyError> {
        Key::from_str(s)
    }
}

impl std::str::FromStr for KeyBuilder {
    type Err = KeyError;

    fn from_str(s: &str) -> Result<KeyBuilder, KeyError> {
        KeyBuilder::from_str(s)
    }
}

} // verus!
