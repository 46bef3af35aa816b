use ebkit::extra::ExtraFields;
use ebkit::metadata::{EventEncoding, Geometry, MetadataBuilder};
use ebkit::reader::RawReader;

#[test]
fn build_needs_encoding_and_geometry() {
    let g = Geometry { width: 4, height: 3 };
    assert!(MetadataBuilder::new().build().is_none());
    assert!(MetadataBuilder::new().with_encoding(EventEncoding::Evt21).build().is_none());
    assert!(MetadataBuilder::new().with_geometry(g).build().is_none());
    let m = MetadataBuilder::new()
        .with_encoding(EventEncoding::Evt21)
        .with_geometry(g)
        .build()
        .unwrap();
    assert_eq!(m.encoding, Some(EventEncoding::Evt21));
    assert_eq!(m.geometry, g);
}

#[test]
fn builder_carries_every_field_into_metadata() {
    let b = MetadataBuilder::new()
        .with_encoding(EventEncoding::Evt30)
        .with_geometry(Geometry { width: 1, height: 2 })
        .with_camera_integrator_name("cam".to_string())
        .with_plugin_integrator_name("pint".to_string())
        .with_plugin_name("plug".to_string())
        .with_serial_number("sn".to_string())
        .with_system_id("id".to_string())
        .with_date("2024-01-01 00:00:00".to_string())
        .with_generation("4.2".to_string())
        .with_extra("a".to_string(), "1".to_string())
        .with_extra("a".to_string(), "2".to_string());
    assert_eq!(b.encoding(), Some(EventEncoding::Evt30));
    assert_eq!(b.geometry(), Some(Geometry { width: 1, height: 2 }));
    assert_eq!(b.generation(), Some("4.2"));
    assert_eq!(b.camera_integrator_name(), Some("cam"));
    let m = b.build().unwrap();
    assert_eq!(m.camera_integrator_name.as_deref(), Some("cam"));
    assert_eq!(m.plugin_integrator_name.as_deref(), Some("pint"));
    assert_eq!(m.plugin_name.as_deref(), Some("plug"));
    assert_eq!(m.serial_number.as_deref(), Some("sn"));
    assert_eq!(m.system_id.as_deref(), Some("id"));
    assert_eq!(m.date.as_deref(), Some("2024-01-01 00:00:00"));
    assert_eq!(m.generation.as_deref(), Some("4.2"));
    assert_eq!(m.extra.get("a"), Some("2"));
}

#[test]
fn new_builder_is_empty() {
    let b = MetadataBuilder::new();
    assert_eq!(b.encoding(), None);
    assert_eq!(b.geometry(), None);
    assert_eq!(b.generation(), None);
    assert_eq!(b.camera_integrator_name(), None);
    assert_eq!(b, MetadataBuilder::default());
}

#[test]
fn extra_fields_read_back_what_was_written() {
    let mut e = ExtraFields::new();
    assert_eq!(e.get("x"), None);
    e.insert("x".to_string(), "1".to_string());
    e.insert("b".to_string(), "2".to_string());
    e.insert("x".to_string(), "3".to_string());
    assert_eq!(e.get("x"), Some("3"));
    assert_eq!(e.get("b"), Some("2"));
    assert_eq!(e.get("c"), None);
    let copy = e.clone();
    assert_eq!(copy, e);
}

#[test]
fn extra_fields_equal_whatever_the_insertion_order() {
    let mut a = ExtraFields::new();
    a.insert("k1".to_string(), "v1".to_string());
    a.insert("k2".to_string(), "v2".to_string());
    let mut b = ExtraFields::new();
    b.insert("k2".to_string(), "v2".to_string());
    b.insert("k1".to_string(), "v1".to_string());
    assert_eq!(a, b);
}

#[test]
fn raw_reader_wraps_a_source() {
    let data: &[u8] = b"% end\n";
    let _reader = RawReader::new(data);
}

#[test]
fn extra_fields_count_grows_only_for_new_keys() {
    let mut e = ExtraFields::new();
    assert_eq!(e.len(), 0);
    e.insert("x".to_string(), "1".to_string());
    assert_eq!(e.len(), 1);
    e.insert("x".to_string(), "2".to_string());
    assert_eq!(e.len(), 1);
    e.insert("a".to_string(), "3".to_string());
    assert_eq!(e.len(), 2);
}

#[test]
fn extra_fields_list_in_key_order() {
    let mut e = ExtraFields::new();
    e.insert("zeta".to_string(), "1".to_string());
    e.insert("alpha".to_string(), "2".to_string());
    e.insert("mid".to_string(), "3".to_string());
    e.insert("alpha".to_string(), "4".to_string());
    let listed: Vec<(&str, &str)> =
        e.entries().iter().map(|(k, v)| (k.as_str(), v.as_str())).collect();
    assert_eq!(listed, vec![("alpha", "4"), ("mid", "3"), ("zeta", "1")]);
}

#[test]
fn with_extra_counts_unknown_keys() {
    let b = MetadataBuilder::new()
        .with_encoding(EventEncoding::Evt20)
        .with_geometry(Geometry { width: 1, height: 1 })
        .with_extra("k".to_string(), "1".to_string())
        .with_extra("k".to_string(), "2".to_string())
        .with_extra("j".to_string(), "3".to_string());
    let m = b.build().unwrap();
    assert_eq!(m.extra.len(), 2);
    assert_eq!(m.extra.get("k"), Some("2"));
    assert_eq!(m.extra.get("j"), Some("3"));
}
