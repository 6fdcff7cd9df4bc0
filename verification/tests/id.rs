use automancy::id::{Id, IdError, RawId};

#[test]
fn new_keeps_both_parts() {
    let id = Id::new("core".to_string(), "conveyor".to_string()).unwrap();
    assert_eq!(id.namespace(), "core");
    assert_eq!(id.name(), "conveyor");
    assert_eq!(id.to_string(), "core:conveyor");
}

#[test]
fn new_rejects_a_separator_in_either_part() {
    assert_eq!(
        Id::new("co:re".to_string(), "conveyor".to_string()).err(),
        Some(IdError::SeparatorInNamespace)
    );
    assert_eq!(
        Id::new("core".to_string(), "con:veyor".to_string()).err(),
        Some(IdError::SeparatorInName)
    );
    assert_eq!(
        Id::new(":".to_string(), ":".to_string()).err(),
        Some(IdError::SeparatorInNamespace)
    );
}

#[test]
fn none_is_the_empty_tile_type() {
    let none = Id::none();
    assert_eq!(none.namespace(), "automancy");
    assert_eq!(none.name(), "none");
    assert_eq!(none.to_string(), "automancy:none");
}

#[test]
fn automancy_uses_the_engine_namespace() {
    let id = Id::automancy("storage".to_string()).unwrap();
    assert_eq!(id.to_string(), "automancy:storage");
    assert_eq!(Id::automancy("a:b".to_string()).err(), Some(IdError::SeparatorInName));
}

#[test]
fn from_str_splits_at_the_only_separator() {
    let id = Id::from_str("automancy:conveyor").unwrap();
    assert_eq!(id.namespace(), "automancy");
    assert_eq!(id.name(), "conveyor");
    let empty_parts = Id::from_str(":").unwrap();
    assert_eq!(empty_parts.namespace(), "");
    assert_eq!(empty_parts.name(), "");
}

#[test]
fn from_str_rejects_what_is_no_identifier() {
    assert_eq!(Id::from_str("conveyor").err(), Some(IdError::MissingSeparator));
    assert_eq!(Id::from_str("").err(), Some(IdError::MissingSeparator));
    assert_eq!(Id::from_str("a:b:c").err(), Some(IdError::SeparatorInName));
    assert_eq!(Id::from_str("::").err(), Some(IdError::SeparatorInName));
}

#[test]
fn from_str_reads_back_what_to_string_wrote() {
    for (namespace, name) in [("automancy", "none"), ("", "x"), ("mod", ""), ("\u{e9}t\u{e9}", "\u{1f600}")] {
        let id = Id::new(namespace.to_string(), name.to_string()).unwrap();
        let back = Id::from_str(&id.to_string()).unwrap();
        assert!(back.same(&id));
        assert_eq!(back.namespace(), namespace);
        assert_eq!(back.name(), name);
    }
}

#[test]
fn same_compares_both_parts() {
    let a = Id::from_str("a:b").unwrap();
    assert!(a.same(&a.clone()));
    assert!(!a.same(&Id::from_str("a:c").unwrap()));
    assert!(!a.same(&Id::from_str("c:b").unwrap()));
}

#[test]
fn raw_id_is_checked_when_it_becomes_an_id() {
    let raw = RawId { namespace: "automancy".to_string(), name: "tile".to_string() };
    let id = raw.into_id().unwrap();
    assert_eq!(id.to_string(), "automancy:tile");
    let back = RawId::from_id(id);
    assert_eq!(back.namespace, "automancy");
    assert_eq!(back.name, "tile");
    let bad = RawId { namespace: "auto:mancy".to_string(), name: "tile".to_string() };
    assert_eq!(bad.into_id().err(), Some(IdError::SeparatorInNamespace));
}

#[test]
fn a_record_is_text_and_a_zero_byte() {
    let raw = RawId { namespace: "automancy".to_string(), name: "t\u{e9}".to_string() };
    assert_eq!(raw.to_bytes(), b"automancy:t\xC3\xA9\0".to_vec());
    let empty = RawId { namespace: String::new(), name: String::new() };
    assert_eq!(empty.to_bytes(), vec![b':', 0]);
}

#[test]
fn from_bytes_reads_up_to_the_first_zero_byte() {
    let raw = RawId::from_bytes(b"automancy:tile\0rest:more\0").unwrap();
    assert_eq!(raw.namespace, "automancy");
    assert_eq!(raw.name, "tile");
    let cut = RawId::from_bytes(b"a:b:c\0").unwrap();
    assert_eq!(cut.namespace, "a");
    assert_eq!(cut.name, "b");
    assert!(RawId::from_bytes(b"automancy:tile").is_none());
    assert!(RawId::from_bytes(b"automancy\0").is_none());
    assert!(RawId::from_bytes(b"\0a:b").is_none());
    assert!(RawId::from_bytes(b"").is_none());
}

#[test]
fn from_bytes_replaces_what_is_no_text() {
    let raw = RawId::from_bytes(b"a\xFFb:c\xC3\0").unwrap();
    assert_eq!(raw.namespace, "a\u{fffd}b");
    assert_eq!(raw.name, "c\u{fffd}");
}

#[test]
fn from_text_splits_like_a_record() {
    let raw = RawId::from_text("x:y").unwrap();
    assert_eq!((raw.namespace.as_str(), raw.name.as_str()), ("x", "y"));
    let raw = RawId::from_text("::").unwrap();
    assert_eq!((raw.namespace.as_str(), raw.name.as_str()), ("", ""));
    assert!(RawId::from_text("xy").is_none());
}

#[test]
fn convert_reads_every_record() {
    let mut bytes = RawId { namespace: "a".to_string(), name: "b".to_string() }.to_bytes();
    bytes.extend(RawId { namespace: "".to_string(), name: "long name".to_string() }.to_bytes());
    bytes.extend(RawId { namespace: "\u{1f600}".to_string(), name: "".to_string() }.to_bytes());
    let records = RawId::convert(&bytes).unwrap();
    let parts: Vec<(&str, &str)> =
        records.iter().map(|r| (r.namespace.as_str(), r.name.as_str())).collect();
    assert_eq!(parts, vec![("a", "b"), ("", "long name"), ("\u{1f600}", "")]);
    assert_eq!(RawId::convert(b"").unwrap().len(), 0);
    assert!(RawId::convert(b"a:b\0c:d").is_none());
    assert!(RawId::convert(b"a:b\0cd\0").is_none());
    assert!(RawId::convert(b"\0").is_none());
}

#[test]
fn the_default_identifier_is_none() {
    assert!(Id::default().same(&Id::none()));
    assert_eq!(Id::default().to_string(), "automancy:none");
}

#[test]
fn a_record_reads_back_as_it_was_written() {
    for (namespace, name) in [
        ("automancy", "tile"),
        ("", ""),
        ("t\u{e9}", "\u{1f600} x"),
        ("a b", "c/d"),
    ] {
        let mut bytes = RawId { namespace: namespace.to_string(), name: name.to_string() }.to_bytes();
        let alone = RawId::from_bytes(&bytes).unwrap();
        assert_eq!(alone.namespace, namespace);
        assert_eq!(alone.name, name);
        bytes.extend(b"what:follows\0");
        let first = RawId::from_bytes(&bytes).unwrap();
        assert_eq!(first.namespace, namespace);
        assert_eq!(first.name, name);
    }
}
