//! In-memory core of a hierarchical configuration store: namespaced key
//! names, keys with optional byte values, ordered key sets, and a plain-value
//! mirror of the fixed foreign layout used to hand keys across an ABI.
#![allow(non_camel_case_types)]

pub mod namespace;
pub mod path;
pub mod name;
pub mod key;
pub mod keyset;
pub mod foreign;
pub mod abi;

pub use crate::key::{Key, KeyBuilder, KeyError};
pub use crate::keyset::KeySet;
pub use crate::name::KeyName;
pub use crate::namespace::{KeyNamespace, KeyNamespaceError};
