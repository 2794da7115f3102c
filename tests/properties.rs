use elektra::key::{Key, KeyError};
use elektra::keyset::{decrease_refs, increase_refs, KeySet};
use elektra::name::KeyName;
use elektra::namespace::KeyNamespace;
use std::cmp::Ordering;

fn key(name: &str) -> Key {
    Key::from_str(name).unwrap()
}

#[test]
fn canonical_names_round_trip() {
    for s in [
        "user:/test/qwe/asd",
        "system:/p",
        "meta:/a",
        "spec:/x/y/z",
        "proc:/p",
        "dir:/d",
        "cascading:/c",
        "none:/n",
        "default:/q/w",
        "user:/",
        "user:/a:b/c",
    ] {
        assert_eq!(KeyName::from_str(s).unwrap().to_string(), s);
    }
}

#[test]
fn parse_splits_at_first_colon_and_rejects_empty_parts() {
    assert_eq!(KeyName::from_str("nocolon").unwrap_err(), KeyError::InvalidNameError);
    assert_eq!(KeyName::from_str(":/a").unwrap_err(), KeyError::InvalidNameError);
    assert_eq!(KeyName::from_str("user:").unwrap_err(), KeyError::InvalidNameError);
    let n = KeyName::from_str("user:/a:b").unwrap();
    assert_eq!(n.namespace(), KeyNamespace::User);
    assert_eq!(n.path_str(), "a:b");
}

#[test]
fn unknown_namespace_token_means_default() {
    let n = KeyName::from_str("weird:/a").unwrap();
    assert_eq!(n.namespace(), KeyNamespace::Default);
    assert_eq!(n.to_string(), "default:/a");
    assert_eq!(KeyNamespace::from_token("system"), KeyNamespace::System);
    assert_eq!(KeyNamespace::from_token("System"), KeyNamespace::Default);
    assert_eq!(KeyNamespace::Spec.to_string(), "spec");
}

#[test]
fn parse_normalizes_the_path() {
    assert_eq!(KeyName::from_str("user:/a/./b/../c").unwrap().to_string(), "user:/a/c");
    assert_eq!(KeyName::from_str("user://a//b/").unwrap().to_string(), "user:/a/b");
    assert_eq!(KeyName::from_str("user:/../x").unwrap().to_string(), "user:/x");
    assert_eq!(KeyName::from_str("user:/a/../../b").unwrap().to_string(), "user:/b");
    assert_eq!(KeyName::from_str("user:/..").unwrap().to_string(), "user:/");
    assert_eq!(KeyName::from_str("user:a/b").unwrap().to_string(), "user:/a/b");
}

#[test]
fn base_name_of_root_is_none() {
    let mut n = KeyName::from_str("user:/").unwrap();
    assert_eq!(n.base_name(), None);
    n.set_base_name("b");
    assert_eq!(n.to_string(), "user:/b");
    n.set_base_name("c/d");
    assert_eq!(n.to_string(), "user:/c/d");
    n.set_base_name("..");
    assert_eq!(n.to_string(), "user:/");
}

#[test]
fn append_name_renormalizes() {
    let mut n = KeyName::from_str("user:/a/b").unwrap();
    n.append_name("../c");
    assert_eq!(n.to_string(), "user:/a/c");
    n.append_name("/d/./e");
    assert_eq!(n.to_string(), "user:/a/c/d/e");
    let mut r = KeyName::new(KeyNamespace::Dir, "x/../y");
    assert_eq!(r.to_string(), "dir:/y");
    r.append_name("z");
    assert_eq!(r.base_name(), Some("z"));
}

#[test]
fn ordering_parent_before_child() {
    let a = key("user:/x");
    let b = key("user:/x/y");
    assert_eq!(a.cmp(&b), Ordering::Less);
    assert!(a.is_below(&b));
    assert!(!b.is_below(&a));
    assert!(a.is_below_or_same(&a));
    assert!(!b.is_below_or_same(&a));
}

#[test]
fn ordering_is_segment_wise() {
    // byte-wise "a-b" < "a/b", segment-wise "a" < "a-b"
    assert_eq!(key("user:/a/b").cmp(&key("user:/a-b")), Ordering::Less);
    assert_eq!(key("user:/b").cmp(&key("user:/a/z")), Ordering::Greater);
}

#[test]
fn namespace_blind_equality() {
    let a = key("user:/p");
    let b = key("system:/p");
    assert_eq!(a.cmp(&b), Ordering::Equal);
    assert!(a == b);
    let mut ks = KeySet::new();
    ks.append(a);
    ks.append(b);
    assert_eq!(ks.len(), 1);
    assert_eq!(ks.get(0).unwrap().name().namespace(), KeyNamespace::User);
}

#[test]
fn append_lookup_take() {
    let mut ks = KeySet::new();
    ks.append(key("user:/a/b"));
    ks.append(key("user:/c"));
    let found = ks.lookup("user:/a/b").unwrap();
    assert_eq!(found.name().base_name(), Some("b"));
    assert!(ks.lookup("user:/a").is_none());
    assert!(ks.lookup("bad").is_none());
    let before = ks.len();
    let taken = ks.take("user:/a/b").unwrap();
    assert_eq!(taken.name().to_string(), "user:/a/b");
    assert_eq!(ks.len(), before - 1);
    assert!(ks.take("user:/a/b").is_none());
    assert_eq!(ks.len(), before - 1);
}

#[test]
fn take_keeps_insertion_order() {
    let mut ks = KeySet::from_iter(vec![key("user:/a"), key("user:/b"), key("user:/c"), key("user:/a")]);
    assert_eq!(ks.len(), 3);
    ks.take("user:/a");
    let names: Vec<String> = ks.values().iter().map(|k| k.name().to_string()).collect();
    assert_eq!(names, vec!["user:/b".to_string(), "user:/c".to_string()]);
}

#[test]
fn negative_indices_count_from_the_back() {
    let mut ks = KeySet::from_iter(vec![key("user:/a"), key("user:/b"), key("user:/c")]);
    assert_eq!(ks.get(-1).unwrap().name().to_string(), "user:/c");
    assert_eq!(ks.get(-3).unwrap().name().to_string(), "user:/a");
    assert!(ks.get(-4).is_none());
    assert!(ks.get(3).is_none());
    assert!(ks.get(isize::MIN).is_none());
    let removed = ks.remove(1).unwrap();
    assert_eq!(removed.name().to_string(), "user:/b");
    assert_eq!(ks.get(1).unwrap().name().to_string(), "user:/c");
    assert!(ks.remove(5).is_none());
    assert_eq!(ks.remove(-2).unwrap().name().to_string(), "user:/a");
    assert_eq!(ks.len(), 1);
}

#[test]
fn clear_keeps_the_counter() {
    let mut ks = KeySet::from_iter(vec![key("user:/a")]);
    ks.set_reference_counter(7);
    ks.clear();
    assert_eq!(ks.len(), 0);
    assert_eq!(ks.reference_counter(), 7);
}

#[test]
fn refcount_clamps() {
    let mut ks = KeySet::new();
    ks.set_reference_counter(u16::MAX);
    assert_eq!(ks.increase_reference_counter(), u16::MAX);
    ks.set_reference_counter(0);
    assert_eq!(ks.decrease_reference_counter(), 0);
    assert_eq!(increase_refs(u16::MAX), u16::MAX);
    assert_eq!(increase_refs(4), 5);
    assert_eq!(decrease_refs(0), 0);
    assert_eq!(decrease_refs(4), 3);
}

#[test]
fn lossy_value_text() {
    let mut k = key("user:/v");
    k.set_value(&[0x61, 0xff, 0x62]);
    assert_eq!(k.value_to_string().unwrap(), "a\u{fffd}b");
}

#[test]
fn parse_with_value() {
    let k = Key::parse("user:/app/timeout", Some(b"30")).unwrap();
    assert_eq!(k.value(), Some(&b"30"[..]));
    assert_eq!(Key::parse("nocolon", Some(b"30")).unwrap_err(), KeyError::InvalidNameError);
    let mut k2 = key("user:/x");
    assert_eq!(k2.set_name("bad"), Err(KeyError::InvalidNameError));
    assert_eq!(k2.name().to_string(), "user:/x");
}

#[test]
fn namespace_codes_round_trip() {
    for c in 0..9u32 {
        assert_eq!(KeyNamespace::from_code(c).code(), c);
    }
    assert_eq!(KeyNamespace::from_code(9), KeyNamespace::NoNamespace);
    assert_eq!(KeyNamespace::User.code(), 6);
}

#[test]
fn parse_through_from_str_trait() {
    let n: KeyName = "user:/a/b".parse().unwrap();
    assert_eq!(n.to_string(), "user:/a/b");
    let k: Key = "meta:/m".parse().unwrap();
    assert_eq!(k.name().namespace(), KeyNamespace::Meta);
    let ns: KeyNamespace = "proc".parse().unwrap_or(KeyNamespace::NoNamespace);
    assert_eq!(ns, KeyNamespace::Proc);
    assert!("x".parse::<Key>().is_err());
}
