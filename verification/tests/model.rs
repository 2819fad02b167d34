//! Identities, references and incident keys.

use kronika_incident::float64::Float64;
use kronika_incident::model::{
    EpisodeRefV1, IdentityReject, IdentityValue, IncidentKeyV1, Value, KEY_VERSION,
};

/// The library's number with the bits of a machine float.
fn num(value: f64) -> Float64 {
    Float64::from_bits(value.to_bits())
}

fn iref(section: &'static str, ids: &[IdentityValue], start: i64, end: i64) -> EpisodeRefV1 {
    EpisodeRefV1 {
        logical_section: section,
        column: "c",
        identity: ids.to_vec(),
        start_us: start,
        end_us: end,
    }
}

#[test]
fn scalar_values_convert_to_identity() {
    assert_eq!(
        IdentityValue::from_value(&Value::I64(-7)),
        Ok(IdentityValue::I64(-7))
    );
    assert_eq!(
        IdentityValue::from_value(&Value::U64(7)),
        Ok(IdentityValue::U64(7))
    );
    assert_eq!(
        IdentityValue::from_value(&Value::Bool(true)),
        Ok(IdentityValue::Bool(true))
    );
    assert_eq!(
        IdentityValue::from_value(&Value::Str("db".to_owned())),
        Ok(IdentityValue::Text("db".to_owned()))
    );
}

#[test]
fn null_is_rejected_as_unresolved() {
    assert_eq!(
        IdentityValue::from_value(&Value::Null),
        Err(IdentityReject::NullOrUnresolved)
    );
}

#[test]
fn float_and_timestamp_are_rejected_as_non_scalar() {
    assert_eq!(
        IdentityValue::from_value(&Value::F64(num(1.0))),
        Err(IdentityReject::NonScalar)
    );
    assert_eq!(
        IdentityValue::from_value(&Value::Ts(1)),
        Err(IdentityReject::NonScalar)
    );
}

#[test]
fn identity_scalars_order_by_variant_then_value() {
    assert!(IdentityValue::I64(9) < IdentityValue::U64(0));
    assert!(IdentityValue::U64(9) < IdentityValue::Bool(false));
    assert!(IdentityValue::Bool(true) < IdentityValue::Text(String::new()));
    assert!(IdentityValue::I64(-1) < IdentityValue::I64(1));
    assert!(IdentityValue::Text("a".to_owned()) < IdentityValue::Text("b".to_owned()));
}

#[test]
fn encoding_is_deterministic() {
    let a = iref("s", &[IdentityValue::I64(1)], 10, 20);
    let b = iref("s", &[IdentityValue::I64(1)], 10, 20);
    let key_a = IncidentKeyV1::new("n".to_owned(), 0, 100, vec![a]);
    let key_b = IncidentKeyV1::new("n".to_owned(), 0, 100, vec![b]);
    assert_eq!(key_a.canonical_bytes(), key_b.canonical_bytes());
}

#[test]
fn length_prefix_prevents_text_boundary_collision() {
    let ab_c = iref("s", &[text("ab"), text("c")], 0, 1);
    let a_bc = iref("s", &[text("a"), text("bc")], 0, 1);
    let ka = IncidentKeyV1::new("n".to_owned(), 0, 1, vec![ab_c]);
    let kb = IncidentKeyV1::new("n".to_owned(), 0, 1, vec![a_bc]);
    assert_ne!(ka.canonical_bytes(), kb.canonical_bytes());
}

#[test]
fn distinct_fields_produce_distinct_keys() {
    let base = || iref("s", &[IdentityValue::U64(1)], 10, 20);
    let bytes =
        |r: EpisodeRefV1| IncidentKeyV1::new("n".to_owned(), 0, 99, vec![r]).canonical_bytes();
    let baseline = bytes(base());
    let mut other_section = base();
    other_section.logical_section = "t";
    let mut other_start = base();
    other_start.start_us = 11;
    assert_ne!(baseline, bytes(other_section));
    assert_ne!(baseline, bytes(other_start));
}

#[test]
fn member_order_does_not_change_the_key() {
    let x = iref("a", &[IdentityValue::I64(1)], 0, 5);
    let y = iref("b", &[IdentityValue::I64(2)], 3, 8);
    let forward = IncidentKeyV1::new("n".to_owned(), 0, 10, vec![x.clone(), y.clone()]);
    let reversed = IncidentKeyV1::new("n".to_owned(), 0, 10, vec![y, x]);
    assert_eq!(forward.canonical_bytes(), reversed.canonical_bytes());
}

#[test]
fn node_id_participates_in_the_key() {
    let r = iref("s", &[IdentityValue::I64(1)], 0, 1);
    let one = IncidentKeyV1::new("node-a".to_owned(), 0, 1, vec![r.clone()]).canonical_bytes();
    let two = IncidentKeyV1::new("node-b".to_owned(), 0, 1, vec![r]).canonical_bytes();
    assert_ne!(one, two);
}

#[test]
fn key_carries_the_version_byte() {
    let r = iref("s", &[IdentityValue::I64(1)], 0, 1);
    let bytes = IncidentKeyV1::new("n".to_owned(), 0, 1, vec![r]).canonical_bytes();
    assert_eq!(bytes.first(), Some(&KEY_VERSION));
}

#[test]
fn references_order_by_interval_then_identity() {
    let early = iref("s", &[IdentityValue::I64(2)], 0, 10);
    let late = iref("s", &[IdentityValue::I64(1)], 5, 10);
    assert!(
        early < late,
        "earlier start sorts first regardless of identity"
    );

    let id_low = iref("s", &[IdentityValue::I64(1)], 0, 10);
    let id_high = iref("s", &[IdentityValue::I64(2)], 0, 10);
    assert!(id_low < id_high, "equal interval falls back to identity");
}

fn text(s: &str) -> IdentityValue {
    IdentityValue::Text(s.to_owned())
}

#[test]
fn the_order_key_names_the_interval_and_the_column() {
    let reference = EpisodeRefV1 {
        logical_section: "section",
        column: "column",
        identity: vec![IdentityValue::Bool(true)],
        start_us: 3,
        end_us: 9,
    };
    assert_eq!(reference.order_key(), (3, 9, "section", "column"));
}
