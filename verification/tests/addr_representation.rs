use telepathy::AddrRepresentation;

#[test]
fn addr_representation_eq_not_key() {
    let own = AddrRepresentation::NetworkInterface;
    let other1 = AddrRepresentation::NetworkInterface;
    let other2 = AddrRepresentation::Connector;
    let other3 = AddrRepresentation::Key("test".to_string());

    assert!(own.eq(&other1));
    assert!(own.ne(&other2));
    assert!(own.ne(&other3));
}

#[test]
fn addr_representation_eq_key() {
    let own = AddrRepresentation::Key("own".to_string());
    let other1 = AddrRepresentation::Key("own".to_string());
    let other2 = AddrRepresentation::Key("other2".to_string());

    assert!(own.eq(&other1));
    assert!(own.ne(&other2));
}

#[test]
fn addr_representation_text_of_each_variant() {
    assert_eq!(AddrRepresentation::NetworkInterface.to_string(), "networkinterface");
    assert_eq!(AddrRepresentation::Connector.to_string(), "gossip");
    assert_eq!(AddrRepresentation::Key("abc".to_string()).to_string(), "abc");
}

#[test]
fn addr_representation_from_str_reserved_and_keys() {
    assert!(matches!(AddrRepresentation::from_str("networkinterface"), Ok(AddrRepresentation::NetworkInterface)));
    assert!(matches!(AddrRepresentation::from_str("gossip"), Ok(AddrRepresentation::Connector)));
    match AddrRepresentation::from_str("MyActor") {
        Ok(AddrRepresentation::Key(k)) => assert_eq!(k, "MyActor"),
        _ => panic!("expected a key"),
    }
}

#[test]
fn addr_representation_key_with_reserved_text_equals_variant() {
    let key = AddrRepresentation::Key("gossip".to_string());
    assert!(key.eq(&AddrRepresentation::Connector));
    assert!(matches!(key.clone(), AddrRepresentation::Connector));
}

#[test]
fn addr_representation_key_word_key() {
    let a = AddrRepresentation::Key("Key".to_string());
    let b = AddrRepresentation::Key("Key".to_string());
    assert!(a.eq(&b));
    assert!(a.ne(&AddrRepresentation::NetworkInterface));
}

#[test]
fn addr_representation_clone_roundtrip() {
    let a = AddrRepresentation::Key("worker".to_string());
    let c = a.clone();
    assert!(a.eq(&c));
    assert_eq!(c.to_string(), "worker");
}
