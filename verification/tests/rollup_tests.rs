use trust_atom::store::Store;
use trust_atom::trust_graph::{build_agent_list, create_rollup_atoms, get_latest, get_rating};
use trust_atom::{create_trust_atom, get_extra, query_mine, QueryMineInput, TrustAtomInput};

const ALICE: u64 = 1;
const BOB: u64 = 2;
const SUBJECT: u64 = 100;

fn rate(store: &mut Store, as_agent: u64, target: u64, content: &str, value: &str) {
    rate_full(store, as_agent, target, content, Some(value), false);
}

fn rate_full(
    store: &mut Store,
    as_agent: u64,
    target: u64,
    content: &str,
    value: Option<&str>,
    is_agent_identity: bool,
) {
    store.set_local_agent(as_agent);
    create_trust_atom(
        store,
        TrustAtomInput {
            target,
            prefix: None,
            content: Some(content.to_string()),
            value: value.map(|v| v.to_string()),
            extra: None,
            is_agent_identity,
        },
    )
    .unwrap();
    store.set_local_agent(ALICE);
}

#[test]
fn latest_selection() {
    // edges with timestamps [10, 30, 20] to the same target: the edge
    // timestamped 30 wins
    let mut s = Store::new(ALICE);
    s.append_edge_at(1, 2, "a".to_string(), 10);
    s.append_edge_at(1, 2, "b".to_string(), 30);
    s.append_edge_at(1, 2, "c".to_string(), 20);
    let latest = get_latest(&s, 1, 2, None).unwrap();
    assert_eq!(latest.timestamp, 30);
    assert_eq!(latest.tag, "b");
    // among equal timestamps the edge appended last wins
    s.append_edge_at(1, 2, "d".to_string(), 30);
    assert_eq!(get_latest(&s, 1, 2, None).unwrap().tag, "d");
    assert_eq!(get_latest(&s, 1, 3, None), None);
}

#[test]
fn rating_reads_the_latest_edge() {
    let mut s = Store::new(ALICE);
    rate(&mut s, ALICE, SUBJECT, "topic", "0.10");
    rate(&mut s, ALICE, SUBJECT, "topic", "0.90");
    assert_eq!(get_rating(&s, ALICE, SUBJECT, None), Ok(Some(900_000_000)));
    assert_eq!(get_rating(&s, ALICE, BOB, None), Ok(None));
}

#[test]
fn agent_list_collects_flagged_targets() {
    let mut s = Store::new(ALICE);
    rate_full(&mut s, ALICE, BOB, "topic", Some("0.8"), true);
    rate(&mut s, ALICE, SUBJECT, "topic", "0.99");
    let mine = query_mine(
        &s,
        QueryMineInput {
            target: None,
            content_full: None,
            content_starts_with: None,
            value_starts_with: None,
        },
    )
    .unwrap();
    let agents = build_agent_list(&mine);
    assert_eq!(agents, vec![BOB]);
}

#[test]
fn end_to_end_rollup() {
    // Alice rates the subject "topic" 0.99; Bob, a known agent rated
    // 0.8 by Alice on "topic", rates it 0.80. The rollup emits exactly
    // one atom: 0.99 + (0.80 - 0.99) * 0.20 = 0.952.
    let mut s = Store::new(ALICE);
    rate_full(&mut s, ALICE, BOB, "topic", Some("0.8"), true);
    rate(&mut s, ALICE, SUBJECT, "topic", "0.99");
    rate(&mut s, BOB, SUBJECT, "topic", "0.80");

    let edges_before = s.edges.len();
    let rollups = create_rollup_atoms(&mut s).unwrap();
    assert_eq!(rollups.len(), 1);
    let r = &rollups[0];
    assert_eq!(r.source, ALICE);
    assert_eq!(r.target, SUBJECT);
    assert_eq!(r.prefix.as_deref(), Some("rollup"));
    assert_eq!(r.content.as_deref(), Some("topic"));
    assert_eq!(r.value.as_deref(), Some(".952000000"));
    assert!(!r.is_agent_identity);
    // exactly two new edges were appended
    assert_eq!(s.edges.len(), edges_before + 2);
    // the provenance extra records Bob's latest atom on the subject
    let extra = get_extra(&s, r.extra.unwrap()).unwrap();
    assert_eq!(extra.fields, vec![(BOB.to_string(), SUBJECT.to_string())]);
}

#[test]
fn positive_rating_gate() {
    // an agent rating of 0 on the relevant topic excludes the agent's
    // contribution even though it holds a qualifying atom; with no
    // contributor left, no rollup atom is emitted for the subject
    let mut s = Store::new(ALICE);
    rate_full(&mut s, ALICE, BOB, "topic", Some("0"), true);
    rate(&mut s, ALICE, SUBJECT, "topic", "0.99");
    rate(&mut s, BOB, SUBJECT, "topic", "0.80");
    assert_eq!(create_rollup_atoms(&mut s).unwrap(), vec![]);

    // a negative rating excludes in the same way
    let mut s = Store::new(ALICE);
    rate_full(&mut s, ALICE, BOB, "topic", Some("-0.99"), true);
    rate(&mut s, ALICE, SUBJECT, "topic", "0.99");
    rate(&mut s, BOB, SUBJECT, "topic", "0.80");
    assert_eq!(create_rollup_atoms(&mut s).unwrap(), vec![]);
}

#[test]
fn unknown_agents_do_not_count() {
    // Bob rates the subject but Alice never flagged Bob as an agent:
    // the opinion is not counted and no rollup atom appears
    let mut s = Store::new(ALICE);
    rate(&mut s, ALICE, SUBJECT, "topic", "0.99");
    rate(&mut s, BOB, SUBJECT, "topic", "0.80");
    assert_eq!(create_rollup_atoms(&mut s).unwrap(), vec![]);
}

#[test]
fn agent_trust_must_match_the_content_label_exactly() {
    // Alice trusts Bob only under the longer label "topicX"; Bob's
    // atom on the subject carries the label "topic". The same-label
    // lookup must not let the longer label stand in, so Bob's
    // contribution is excluded and no rollup atom is emitted.
    let mut s = Store::new(ALICE);
    rate_full(&mut s, ALICE, BOB, "topicX", Some("0.9"), true);
    rate(&mut s, ALICE, SUBJECT, "topic", "0.99");
    rate(&mut s, BOB, SUBJECT, "topic", "0.80");
    assert_eq!(create_rollup_atoms(&mut s).unwrap(), vec![]);
}

#[test]
fn rollup_without_own_rating_takes_the_mean() {
    // Alice rated the subject without a value, so her latest content
    // label carries over but the blended value is the plain mean of
    // the contributions: here Bob's 0.80 alone
    let mut s = Store::new(ALICE);
    rate_full(&mut s, ALICE, BOB, "topic", Some("0.8"), true);
    rate_full(&mut s, ALICE, SUBJECT, "topic", None, false);
    rate(&mut s, BOB, SUBJECT, "topic", "0.80");

    let rollups = create_rollup_atoms(&mut s).unwrap();
    assert_eq!(rollups.len(), 1);
    assert_eq!(rollups[0].content.as_deref(), Some("topic"));
    assert_eq!(rollups[0].value.as_deref(), Some(".800000000"));
}

#[test]
fn two_equal_contributors_average_exactly() {
    // two known agents with the same trust rating have equal weights,
    // so the weighted sum is the average of their values whatever the
    // golden-ratio power of the rating is
    const CAROL: u64 = 3;
    let mut s = Store::new(ALICE);
    rate_full(&mut s, ALICE, BOB, "topic", Some("0.5"), true);
    rate_full(&mut s, ALICE, CAROL, "topic", Some("0.5"), true);
    rate(&mut s, ALICE, SUBJECT, "topic", "1.0");
    rate(&mut s, BOB, SUBJECT, "topic", "0.40");
    rate(&mut s, CAROL, SUBJECT, "topic", "0.80");

    let rollups = create_rollup_atoms(&mut s).unwrap();
    assert_eq!(rollups.len(), 1);
    // weighted_sum = 0.40/2 + 0.80/2 = 0.60; 1.0 + (0.6 - 1.0)*0.2 = 0.92
    assert_eq!(rollups[0].value.as_deref(), Some(".920000000"));
}

#[test]
fn corrupt_stored_rating_is_fatal() {
    // a hand-crafted backward edge whose value chunk is not a decimal
    // aborts the whole rollup run and writes nothing
    let mut s = Store::new(ALICE);
    rate_full(&mut s, ALICE, BOB, "topic", Some("0.8"), true);
    rate(&mut s, ALICE, SUBJECT, "topic", "0.99");
    s.append_edge_at(
        SUBJECT,
        BOB,
        "\u{1}\u{166}\u{21a9}topic\u{0}fast\u{0}\u{0}\u{0}\u{0}".to_string(),
        99,
    );
    let edges_before = s.edges.len();
    assert!(create_rollup_atoms(&mut s).is_err());
    assert_eq!(s.edges.len(), edges_before);
}

#[test]
fn rollup_reruns_append_a_fresh_generation() {
    // every run recomputes and republishes: a second run appends a new
    // rollup atom blended against the first one (the latest edge rule
    // now selects the previous rollup as the own rating)
    let mut s = Store::new(ALICE);
    rate_full(&mut s, ALICE, BOB, "topic", Some("0.8"), true);
    rate(&mut s, ALICE, SUBJECT, "topic", "0.99");
    rate(&mut s, BOB, SUBJECT, "topic", "0.80");
    let first = create_rollup_atoms(&mut s).unwrap();
    assert_eq!(first[0].value.as_deref(), Some(".952000000"));
    let second = create_rollup_atoms(&mut s).unwrap();
    assert_eq!(second.len(), 1);
    // 0.952 + (0.80 - 0.952) * 0.20 = 0.9216
    assert_eq!(second[0].value.as_deref(), Some(".921600000"));
}
