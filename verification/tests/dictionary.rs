//! Tests of the metadata dictionary: schema validation, value writes, label
//! building and the diagnostic accessors.

use nginx_rtmp_exporter::meta::{Format, MetaError, MetaFile};

fn schema(fields: &[&str]) -> MetaFile {
    let mut m = MetaFile::default();
    for f in fields {
        m.add_field(f);
    }
    m
}

#[test]
fn add_value_known_field() {
    let mut m = schema(&["message"]);
    assert!(m.add_value("talk", "message", "hello").is_ok());
    let inner = m.for_stream("talk").expect("stream must exist");
    assert_eq!(inner.len(), 1);
    assert_eq!(inner[0].0, "message");
    assert_eq!(inner[0].1, "hello");
}

#[test]
fn add_value_unknown_field_fails_fast() {
    let mut m = schema(&["message"]);
    let err = m.add_value("talk", "color", "red").unwrap_err();
    assert!(matches!(err, MetaError::UnknownField(f) if f == "color"));
    assert!(m.for_stream("talk").is_none());
    assert!(m.streams().is_empty());
}

#[test]
fn with_value_builder() {
    let m = schema(&["message"])
        .with_value("talk", "message", "hello")
        .expect("known field");
    assert_eq!(m.get_values_for("talk"), vec!["hello".to_owned()]);
    assert!(schema(&["message"]).with_value("talk", "color", "red").is_err());
}

#[test]
fn add_value_overwrites() {
    let mut m = schema(&["message"]);
    m.add_value("talk", "message", "first").unwrap();
    m.add_value("talk", "message", "second").unwrap();
    assert_eq!(m.get_values_for("talk"), vec!["second".to_owned()]);
    let inner = m.for_stream("talk").unwrap();
    assert_eq!(inner.len(), 1);
}

#[test]
fn add_value_many_applies_in_order() {
    let mut m = schema(&["message", "owner"]);
    let values = vec![
        ("message".to_owned(), "hello".to_owned()),
        ("owner".to_owned(), "ops".to_owned()),
        ("message".to_owned(), "bye".to_owned()),
    ];
    m.add_value_many("talk", &values).unwrap();
    assert_eq!(m.get_values_for("talk"), vec!["bye".to_owned(), "ops".to_owned()]);
}

#[test]
fn add_value_many_stops_at_first_unknown() {
    let mut m = schema(&["message"]);
    let values = vec![
        ("message".to_owned(), "hello".to_owned()),
        ("color".to_owned(), "red".to_owned()),
        ("message".to_owned(), "bye".to_owned()),
    ];
    let err = m.add_value_many("talk", &values).unwrap_err();
    assert!(matches!(err, MetaError::UnknownField(f) if f == "color"));
    // The value before the failing one stays; the one after was never
    // applied.
    assert_eq!(m.get_values_for("talk"), vec!["hello".to_owned()]);
}

#[test]
fn values_for_unknown_stream_are_unspecified() {
    let m = schema(&["message", "owner"]);
    assert_eq!(
        m.get_values_for("ghost"),
        vec!["unspecified".to_owned(), "unspecified".to_owned()]
    );
}

#[test]
fn values_keep_schema_order_and_fill_gaps() {
    let mut m = schema(&["message", "owner", "region"]);
    m.add_value("talk", "region", "eu").unwrap();
    m.add_value("talk", "message", "hi").unwrap();
    assert_eq!(
        m.get_values_for("talk"),
        vec!["hi".to_owned(), "unspecified".to_owned(), "eu".to_owned()]
    );
}

#[test]
fn build_labels_has_fixed_arity_and_order() {
    let mut m = schema(&["message", "owner"]);
    m.add_value("talk", "owner", "ops").unwrap();
    let labels = m.build_labels("live", "talk");
    assert_eq!(labels.len(), 2 + m.get_fields().len());
    assert_eq!(
        labels,
        vec![
            "live".to_owned(),
            "talk".to_owned(),
            "unspecified".to_owned(),
            "ops".to_owned()
        ]
    );
    // A stream the dictionary does not know still gets the full vector.
    let labels = m.build_labels("live", "ghost");
    assert_eq!(labels.len(), 4);
    assert_eq!(&labels[2..], &["unspecified".to_owned(), "unspecified".to_owned()]);
}

#[test]
fn entries_and_streams_list_the_dictionary() {
    let mut m = schema(&["message", "owner"]);
    m.add_value("talk", "message", "hello").unwrap();
    m.add_value("talk", "owner", "ops").unwrap();
    m.add_value("news", "message", "breaking").unwrap();
    assert_eq!(m.streams(), vec!["talk".to_owned(), "news".to_owned()]);
    assert_eq!(
        m.entries(),
        vec![
            ("talk".to_owned(), "message".to_owned(), "hello".to_owned()),
            ("talk".to_owned(), "owner".to_owned(), "ops".to_owned()),
            ("news".to_owned(), "message".to_owned(), "breaking".to_owned()),
        ]
    );
}

#[test]
fn format_from_str_ignores_case() {
    assert_eq!(Format::from_str("json").unwrap(), Format::Json);
    assert_eq!(Format::from_str("JSON").unwrap(), Format::Json);
    assert_eq!(Format::from_str("jSoN").unwrap(), Format::Json);
    assert_eq!(Format::from_str("toml").unwrap(), Format::Toml);
    assert_eq!(Format::from_str("Toml").unwrap(), Format::Toml);
    let err = Format::from_str("yaml").unwrap_err();
    assert!(matches!(err, MetaError::UnknownFormat(f) if f == "yaml"));
    assert!(Format::from_str("").is_err());
}
