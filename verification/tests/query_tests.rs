use trust_atom::store::Store;
use trust_atom::{
    create_trust_atom, query, query_mine, QueryInput, QueryMineInput, TrustAtomError,
    TrustAtomInput,
};

fn atom_input(target: u64, content: &str, value: &str) -> TrustAtomInput {
    TrustAtomInput {
        target,
        prefix: None,
        content: Some(content.to_string()),
        value: Some(value.to_string()),
        extra: None,
        is_agent_identity: false,
    }
}

fn plain_query(source: Option<u64>, target: Option<u64>) -> QueryInput {
    QueryInput {
        source,
        target,
        content_full: None,
        content_starts_with: None,
        value_starts_with: None,
    }
}

#[test]
fn query_exclusivity() {
    // both or neither of source and target always yields AmbiguousQuery
    let mut s = Store::new(1);
    create_trust_atom(&mut s, atom_input(2, "holochain", "0.99")).unwrap();
    assert!(matches!(
        query(&s, plain_query(Some(1), Some(2))),
        Err(TrustAtomError::AmbiguousQuery)
    ));
    assert!(matches!(query(&s, plain_query(None, None)), Err(TrustAtomError::AmbiguousQuery)));
}

#[test]
fn create_canonicalizes_value_and_query_finds_it() {
    let mut s = Store::new(1);
    let created = create_trust_atom(&mut s, atom_input(2, "holochain", "0.99")).unwrap();
    assert_eq!(created.source, 1);
    assert_eq!(created.target, 2);
    assert_eq!(created.value.as_deref(), Some(".990000000"));
    // two edges per atom
    assert_eq!(s.edges.len(), 2);

    let forward = query(&s, plain_query(Some(1), None)).unwrap();
    assert_eq!(forward.len(), 1);
    assert_eq!(forward[0], created);

    let backward = query(&s, plain_query(None, Some(2))).unwrap();
    assert_eq!(backward.len(), 1);
    assert_eq!(backward[0], created);
}

#[test]
fn create_accepts_fraction_only_value() {
    // a fraction-only input is accepted and canonicalized with nine
    // fractional digits and no integer-part zero
    let mut s = Store::new(1);
    let created = create_trust_atom(&mut s, atom_input(2, "sushi", ".8")).unwrap();
    assert_eq!(created.value.as_deref(), Some(".800000000"));
}

#[test]
fn create_rejects_unparseable_value() {
    let mut s = Store::new(1);
    let r = create_trust_atom(&mut s, atom_input(2, "holochain", "fast"));
    assert!(matches!(r, Err(TrustAtomError::NumericParseFailure)));
    // nothing was written
    assert_eq!(s.edges.len(), 0);
}

#[test]
fn content_filters_are_additive() {
    let mut s = Store::new(1);
    create_trust_atom(&mut s, atom_input(2, "holochain", "0.99")).unwrap();
    create_trust_atom(&mut s, atom_input(3, "holo", "0.80")).unwrap();
    create_trust_atom(&mut s, atom_input(4, "engineering", "0.88")).unwrap();

    let mut q = plain_query(Some(1), None);
    q.content_starts_with = Some("holo".to_string());
    let by_prefix = query(&s, q).unwrap();
    assert_eq!(by_prefix.len(), 2);

    let mut q = plain_query(Some(1), None);
    q.content_full = Some("holo".to_string());
    let by_full = query(&s, q).unwrap();
    assert_eq!(by_full.len(), 1);
    assert_eq!(by_full[0].target, 3);

    let mut q = plain_query(Some(1), None);
    q.content_starts_with = Some("holo".to_string());
    q.value_starts_with = Some(".9".to_string());
    let both = query(&s, q).unwrap();
    assert_eq!(both.len(), 1);
    assert_eq!(both[0].target, 2);
}

#[test]
fn query_mine_fixes_the_source() {
    let mut s = Store::new(1);
    create_trust_atom(&mut s, atom_input(2, "holochain", "0.99")).unwrap();
    s.set_local_agent(7);
    create_trust_atom(&mut s, atom_input(2, "holochain", "0.50")).unwrap();

    let mine = query_mine(
        &s,
        QueryMineInput {
            target: None,
            content_full: None,
            content_starts_with: None,
            value_starts_with: None,
        },
    )
    .unwrap();
    assert_eq!(mine.len(), 1);
    assert_eq!(mine[0].source, 7);
    assert_eq!(mine[0].value.as_deref(), Some(".500000000"));
}

#[test]
fn one_malformed_edge_aborts_the_whole_query() {
    let mut s = Store::new(1);
    create_trust_atom(&mut s, atom_input(2, "holochain", "0.99")).unwrap();
    // a forward-looking tag with too few fields
    s.append_edge_at(1, 9, "\u{1}\u{166}\u{2192}broken".to_string(), 5);
    assert!(matches!(query(&s, plain_query(Some(1), None)), Err(TrustAtomError::MalformedTag)));
    // an edge that is not a trust-atom tag at all is never fetched
    let mut s2 = Store::new(1);
    create_trust_atom(&mut s2, atom_input(2, "holochain", "0.99")).unwrap();
    s2.append_edge_at(1, 9, "junk".to_string(), 5);
    assert_eq!(query(&s2, plain_query(Some(1), None)).unwrap().len(), 1);
}
