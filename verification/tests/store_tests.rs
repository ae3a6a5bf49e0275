use trust_atom::store::{calc_extra_hash, Extra, RecordPayload, Store, StringTarget};
use trust_atom::{create_string_target, get_extra, TrustAtomError};

fn extra(pairs: &[(&str, &str)]) -> Extra {
    Extra { fields: pairs.iter().map(|(k, v)| (k.to_string(), v.to_string())).collect() }
}

#[test]
fn append_assigns_monotonic_timestamps() {
    let mut s = Store::new(1);
    let t0 = s.append_edge(1, 2, "a".to_string());
    let t1 = s.append_edge(1, 3, "b".to_string());
    let t2 = s.append_edge(2, 1, "c".to_string());
    assert_eq!((t0, t1, t2), (0, 1, 2));
    assert_eq!(s.edges.len(), 3);
}

#[test]
fn list_edges_filters_by_base_and_tag_prefix() {
    let mut s = Store::new(1);
    s.append_edge(1, 2, "xa".to_string());
    s.append_edge(1, 3, "xb".to_string());
    s.append_edge(1, 4, "yb".to_string());
    s.append_edge(2, 5, "xc".to_string());
    let all = s.list_edges(1, None);
    assert_eq!(all.len(), 3);
    assert_eq!(all[0].target, 2);
    assert_eq!(all[1].target, 3);
    assert_eq!(all[2].target, 4);
    let xs = s.list_edges(1, Some("x"));
    assert_eq!(xs.len(), 2);
    assert_eq!(xs[0].tag, "xa");
    assert_eq!(xs[1].tag, "xb");
}

#[test]
fn idempotent_extra_creation() {
    // writing identical payloads twice returns the same identifier
    // both times and does not create two records
    let mut s = Store::new(1);
    let x = extra(&[("note", "good"), ("lang", "en")]);
    let id1 = s.write_extra(&x);
    assert_eq!(s.records.len(), 1);
    let id2 = s.write_extra(&extra(&[("note", "good"), ("lang", "en")]));
    assert_eq!(id1, id2);
    assert_eq!(s.records.len(), 1);
}

#[test]
fn extra_id_is_canonical_over_field_order() {
    // the identifier hashes the canonical serialization, so the pair
    // order in the payload does not matter
    let a = extra(&[("b", "2"), ("a", "1")]);
    let b = extra(&[("a", "1"), ("b", "2")]);
    assert_eq!(calc_extra_hash(&a), calc_extra_hash(&b));
    let c = extra(&[("a", "1"), ("b", "3")]);
    assert_ne!(calc_extra_hash(&a), calc_extra_hash(&c));
}

#[test]
fn calc_extra_hash_matches_write() {
    let mut s = Store::new(1);
    let x = extra(&[("k", "v")]);
    let id = calc_extra_hash(&x);
    assert_eq!(s.write_extra(&x), id);
}

#[test]
fn get_extra_resolves_and_fails_with_not_found() {
    let mut s = Store::new(1);
    let x = extra(&[("note", "hi")]);
    let id = s.write_extra(&x);
    let got = get_extra(&s, id).unwrap();
    assert_eq!(got.fields, x.fields);
    assert_eq!(get_extra(&s, id.wrapping_add(1)), Err(TrustAtomError::NotFound));
}

#[test]
fn string_target_ids_are_content_derived() {
    let mut s = Store::new(1);
    let id1 = create_string_target(&mut s, "Ethereum".to_string());
    assert_eq!(s.records.len(), 1);
    let id2 = create_string_target(&mut s, "Ethereum".to_string());
    assert_eq!(id1, id2);
    assert_eq!(s.records.len(), 1);
    let id3 = create_string_target(&mut s, "Telos".to_string());
    assert_ne!(id1, id3);
    assert_eq!(s.records.len(), 2);
    match &s.records[0].payload {
        RecordPayload::StringTarget(StringTarget(t)) => assert_eq!(t, "Ethereum"),
        _ => panic!("expected a string target record"),
    }
}
