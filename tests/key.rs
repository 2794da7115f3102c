use elektra::key::{Key, KeyBuilder};
use elektra::keyset::KeySet;
use elektra::name::KeyName;
use elektra::namespace::KeyNamespace;

#[test]
fn test_key() {
    let mut key = Key::new(KeyName::from_str("user:/test/qwe/asd").unwrap());

    assert_eq!(key.name().to_string(), "user:/test/qwe/asd");

    key.name_mut().set_base_name("zxc");
    assert_eq!(key.name().to_string(), "user:/test/qwe/zxc");

    key.set_name("user:/asd").expect("should succeed");
    assert_eq!(key.name().to_string(), "user:/asd");

    let key_name = KeyName::from_str("user:/test/qwe/asd").unwrap();
    key.set_keyname(key_name);
    assert_eq!(key.name().to_string(), "user:/test/qwe/asd");
}

#[test]
fn test_key_ord() {
    let key1 = Key::new(KeyName::from_str("user:/test/qwe/asd").unwrap());
    let key2 = Key::new(KeyName::from_str("user:/test/qwe/asd/zxc").unwrap());
    let key3 = Key::new(KeyName::from_str("user:/test/qwe/asd/zxc").unwrap());

    assert!(key1 == key1);
    assert!(key2 == key2);
    assert!(key2 == key3);

    assert!(key1 < key2);
    assert!(key2 > key1);

    assert!(key1 <= key2);
    assert!(key2 >= key1);
}

#[test]
fn test_key_name() {
    let mut key_name = KeyName::from_str("user:/test/qwe/asd").unwrap();
    assert_eq!(key_name.to_string(), "user:/test/qwe/asd");
    assert_eq!(key_name.base_name().unwrap(), "asd");
    assert_eq!(key_name.namespace(), KeyNamespace::User);

    key_name.append_name("qweqweqwe");
    assert_eq!(key_name.to_string(), "user:/test/qwe/asd/qweqweqwe");
    assert_eq!(key_name.base_name().unwrap(), "qweqweqwe");
    assert_eq!(key_name.namespace(), KeyNamespace::User);

    key_name.set_base_name("zxc");
    assert_eq!(key_name.to_string(), "user:/test/qwe/asd/zxc");
    assert_eq!(key_name.base_name().unwrap(), "zxc");

    key_name.set_namespace(KeyNamespace::Meta);
    assert_eq!(key_name.to_string(), "meta:/test/qwe/asd/zxc");
    assert_eq!(key_name.namespace(), KeyNamespace::Meta);

    key_name.set_namespace(KeyNamespace::User);
    assert_eq!(key_name.to_string(), "user:/test/qwe/asd/zxc");
    assert_eq!(key_name.namespace(), KeyNamespace::User);
}

#[test]
fn test_key_value() {
    let mut key = Key::new(KeyName::from_str("user:/test").unwrap());

    assert_eq!(None, key.value());
    assert_eq!(None, key.value_to_string());

    key.set_value_str("asdf");
    assert_eq!(vec![97, 115, 100, 102], key.value().unwrap());
    assert_eq!("asdf".as_bytes(), key.value().unwrap());
    assert_eq!("asdf", key.value_to_string().unwrap());
}

#[test]
fn test_key_builder() {
    let key = KeyBuilder::from_str("user:/test/qwe/asd")
        .unwrap()
        .value("asd".as_bytes())
        .build()
        .unwrap();

    assert_eq!(key.name().to_string(), "user:/test/qwe/asd");
    assert_eq!(key.value_to_string().unwrap(), "asd");

    let key_name = KeyName::from_str("user:/test/qwe/zxc").unwrap();
    let key = KeyBuilder::new(key_name)
        .value("qwe".as_bytes())
        .build()
        .unwrap();

    assert_eq!(key.name().to_string(), "user:/test/qwe/zxc");
    assert_eq!(key.value_to_string().unwrap(), "qwe");
}

#[test]
fn test_keyset() {
    let key = Key::new(KeyName::from_str("user:/test/qwe/asd").unwrap());

    let keyset_content = vec![key];

    let mut keyset = KeySet::from_iter(keyset_content);
    assert_eq!(1, keyset.len());

    let key_lookup = keyset.get(0).unwrap();
    assert_eq!("user:/test/qwe/asd", key_lookup.name().to_string());
    assert_eq!(1, keyset.len());

    let key_lookup = keyset.lookup("user:/test/qwe/asd").unwrap();
    assert_eq!("user:/test/qwe/asd", key_lookup.name().to_string());
    assert_eq!(1, keyset.len());

    let key_removed = keyset.take("user:/test/qwe/asd").unwrap();
    assert_eq!("user:/test/qwe/asd", key_removed.name().to_string());
    assert_eq!(0, keyset.len());

    let key = Key::new(KeyName::from_str("user:/test/qwe/asd").unwrap());

    let keyset_content = vec![key];
    let mut keyset = KeySet::from_iter(keyset_content);
    assert_eq!(1, keyset.len());

    keyset.clear();
    assert_eq!(0, keyset.len());
}

#[test]
fn test_keyset_reference_counter() {
    let mut keyset = KeySet::default();

    assert_eq!(0, keyset.reference_counter());

    assert_eq!(0, keyset.decrease_reference_counter());
    assert_eq!(0, keyset.reference_counter());

    assert_eq!(1, keyset.increase_reference_counter());
    assert_eq!(1, keyset.reference_counter());

    assert_eq!(2, keyset.increase_reference_counter());
    assert_eq!(2, keyset.reference_counter());

    assert_eq!(1, keyset.decrease_reference_counter());
    assert_eq!(1, keyset.reference_counter());

    assert_eq!(0, keyset.decrease_reference_counter());
    assert_eq!(0, keyset.reference_counter());

    assert_eq!(u16::MAX, keyset.set_reference_counter(u16::MAX));
    assert_eq!(u16::MAX, keyset.increase_reference_counter());
    assert_eq!(u16::MAX - 1, keyset.decrease_reference_counter());
}
