use elektra::abi::{
    add_name, base_name_size, compare_name, is_below, is_below_or_same, key_new, namespace,
    scan_new_flags, set_base_name, set_name, set_namespace, set_value, value_size,
};
use elektra::foreign::{
    elektraNamespace, from_foreign, keyset_from_foreign, keyset_to_foreign, overwrite, to_foreign,
    ForeignKey,
};
use elektra::keyset::KeySet;
use elektra::key::{Key, KeyError};
use elektra::namespace::KeyNamespace;

fn fk(name: &str) -> ForeignKey {
    key_new(name).unwrap()
}

#[test]
fn foreign_value_reads_back_as_binary() {
    let k = Key::parse("user:/app/timeout", Some(b"30")).unwrap();
    let f = to_foreign(k).unwrap();
    assert_eq!(f.data_size, 2);
    assert_eq!(f.data.as_deref(), Some(&b"30"[..]));
    assert_eq!(f.key, b"user:/app/timeout\0".to_vec());
    assert_eq!(f.key_size, 18);
    drop(f);
}

#[test]
fn foreign_round_trip() {
    let k = Key::parse("system:/a/b", Some(&[0, 1, 2])).unwrap();
    let f = to_foreign(k).unwrap();
    let back = from_foreign(&f).unwrap();
    assert_eq!(back.name().to_string(), "system:/a/b");
    assert_eq!(back.value(), Some(&[0u8, 1, 2][..]));
    let none = to_foreign(Key::from_str("user:/n").unwrap()).unwrap();
    assert!(none.data.is_none());
    assert_eq!(none.data_size, 0);
    assert!(from_foreign(&none).unwrap().value().is_none());
}

#[test]
fn unescaped_name_layout() {
    let f = fk("user:/a/b");
    assert_eq!(f.ukey, vec![6, 0, b'a', 0, b'b', 0]);
    assert_eq!(f.key_u_size, 6);
}

#[test]
fn nul_in_name_is_refused() {
    let k = Key::from_str("user:/a\0b").unwrap();
    assert_eq!(to_foreign(k).err(), Some(KeyError::ConversionError));
    assert!(key_new("user:/a\0b").is_none());
    assert!(key_new("nocolon").is_none());
}

#[test]
fn invalid_utf8_name_is_a_conversion_error() {
    let mut f = fk("user:/a");
    f.key = vec![0xff, 0xfe, 0];
    assert_eq!(from_foreign(&f).err(), Some(KeyError::ConversionError));
    f.key = b"nocolon\0".to_vec();
    assert_eq!(from_foreign(&f).err(), Some(KeyError::InvalidNameError));
    assert_eq!(value_size(&f), -1);
    assert_eq!(namespace(&f), elektraNamespace::KEY_NS_NONE);
}

#[test]
fn overwrite_returns_old_contents() {
    let mut target = fk("user:/old");
    let prev = overwrite(&mut target, Key::from_str("user:/new").unwrap()).unwrap();
    assert_eq!(prev.key, b"user:/old\0".to_vec());
    assert_eq!(target.key, b"user:/new\0".to_vec());
    let bad = overwrite(&mut target, Key::from_str("user:/x\0").unwrap());
    assert_eq!(bad.err(), Some(KeyError::ConversionError));
    assert_eq!(target.key, b"user:/new\0".to_vec());
}

#[test]
fn entry_point_comparisons() {
    let a = fk("user:/x");
    let b = fk("user:/x/y");
    let mut broken = fk("user:/z");
    broken.key = vec![0xff, 0];
    assert_eq!(compare_name(&a, &b), -1);
    assert_eq!(compare_name(&b, &a), 1);
    assert_eq!(compare_name(&a, &fk("system:/x")), 0);
    assert_eq!(is_below(&a, &b), 1);
    assert_eq!(is_below(&b, &a), 0);
    assert_eq!(is_below_or_same(&a, &a), 1);
    assert_eq!(is_below(&a, &broken), -1);
}

#[test]
fn entry_point_name_changes() {
    let f = fk("user:/a/b");
    assert_eq!(set_name(&f, "system:/q").unwrap().key, b"system:/q\0".to_vec());
    assert_eq!(set_name(&f, "bad").err(), Some(KeyError::InvalidNameError));
    assert_eq!(add_name(&f, "c/../d").unwrap().key, b"user:/a/b/d\0".to_vec());
    assert_eq!(set_base_name(&f, "z").unwrap().key, b"user:/a/z\0".to_vec());
    assert_eq!(base_name_size(&f), 2);
    assert_eq!(base_name_size(&fk("user:/")), 1);
    let g = set_namespace(&f, elektraNamespace::KEY_NS_META).unwrap();
    assert_eq!(g.key, b"meta:/a/b\0".to_vec());
    assert_eq!(namespace(&g), elektraNamespace::KEY_NS_META);
}

#[test]
fn entry_point_values() {
    let f = fk("user:/v");
    assert_eq!(value_size(&f), 0);
    let g = set_value(&f, b"hello").unwrap();
    assert_eq!(value_size(&g), 5);
    assert_eq!(g.data.as_deref(), Some(&b"hello"[..]));
    assert_eq!(from_foreign(&g).unwrap().name().to_string(), "user:/v");
}

#[test]
fn new_key_flag_scan() {
    let o = scan_new_flags(&[1, 2, 0, 1]);
    assert!(o.name && o.value);
    assert_eq!(o.consumed, 2);
    let o = scan_new_flags(&[3]);
    assert!(o.name && o.value);
    assert_eq!(o.consumed, 1);
    let o = scan_new_flags(&[2, 7, 1]);
    assert!(!o.name && o.value);
    assert_eq!(o.consumed, 1);
    let o = scan_new_flags(&[]);
    assert!(!o.name && !o.value);
    assert_eq!(o.consumed, 0);
}

#[test]
fn namespace_encodings_agree() {
    for c in 0..9i32 {
        let f = elektraNamespace::from_code(c);
        assert_eq!(f.code(), c);
        assert_eq!(KeyNamespace::from(f).code() as i32, c);
        assert_eq!(elektraNamespace::from(KeyNamespace::from(f)), f);
    }
    assert_eq!(elektraNamespace::from_code(-1), elektraNamespace::KEY_NS_NONE);
    assert_eq!(elektraNamespace::from_code(42), elektraNamespace::KEY_NS_NONE);
}

#[test]
fn keyset_layout_round_trip() {
    let mut ks = KeySet::from_iter(vec![
        Key::parse("user:/b", Some(b"1")).unwrap(),
        Key::from_str("user:/a").unwrap(),
    ]);
    ks.set_reference_counter(3);
    let f = keyset_to_foreign(ks).unwrap();
    assert_eq!(f.size, 2);
    assert_eq!(f.alloc, 2);
    assert_eq!(f.refs, 3);
    assert_eq!(f.keys[0].key, b"user:/b\0".to_vec());
    assert_eq!(f.keys[1].key, b"user:/a\0".to_vec());
    let back = keyset_from_foreign(&f).unwrap();
    assert_eq!(back.len(), 2);
    assert_eq!(back.reference_counter(), 3);
    assert_eq!(back.get(0).unwrap().value(), Some(&b"1"[..]));
    assert_eq!(back.get(1).unwrap().name().to_string(), "user:/a");
}

#[test]
fn keyset_layout_errors() {
    let ks = KeySet::from_iter(vec![Key::from_str("user:/a\0").unwrap()]);
    assert_eq!(keyset_to_foreign(ks).err(), Some(KeyError::ConversionError));
    let mut f = keyset_to_foreign(KeySet::from_iter(vec![Key::from_str("user:/a").unwrap()])).unwrap();
    f.keys.push(fk("system:/a"));
    assert_eq!(keyset_from_foreign(&f).unwrap().len(), 1);
    f.keys[0].key = vec![0xc3, 0];
    assert_eq!(keyset_from_foreign(&f).err(), Some(KeyError::ConversionError));
}
