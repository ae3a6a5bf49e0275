use trust_atom::codec::{decode_tag, encode_tag, link_tag, LinkDirection, TagFields};
use trust_atom::TrustAtomError;

fn fields(
    content: Option<&str>,
    value: Option<&str>,
    prefix: Option<&str>,
    extra: Option<u64>,
    agent_identity: bool,
) -> TagFields {
    TagFields {
        content: content.map(|s| s.to_string()),
        value: value.map(|s| s.to_string()),
        prefix: prefix.map(|s| s.to_string()),
        extra,
        agent_identity,
    }
}

#[test]
fn round_trip_forward_full() {
    let f = fields(Some("holochain"), Some("0.990000000"), Some("rollup"), Some(42), true);
    let tag = encode_tag(LinkDirection::Forward, &f);
    let (d, g) = decode_tag(&tag).unwrap();
    assert_eq!(d, LinkDirection::Forward);
    assert_eq!(g.content.as_deref(), Some("holochain"));
    assert_eq!(g.value.as_deref(), Some("0.990000000"));
    assert_eq!(g.prefix.as_deref(), Some("rollup"));
    assert_eq!(g.extra, Some(42));
    assert!(g.agent_identity);
}

#[test]
fn round_trip_reverse_minimal() {
    let f = fields(Some("topic"), None, None, None, false);
    let tag = encode_tag(LinkDirection::Reverse, &f);
    let (d, g) = decode_tag(&tag).unwrap();
    assert_eq!(d, LinkDirection::Reverse);
    assert_eq!(g.content.as_deref(), Some("topic"));
    assert_eq!(g.value, None);
    assert_eq!(g.prefix, None);
    assert_eq!(g.extra, None);
    assert!(!g.agent_identity);
}

#[test]
fn round_trip_empty_fields() {
    let f = fields(None, None, None, None, false);
    let tag = encode_tag(LinkDirection::Forward, &f);
    let (d, g) = decode_tag(&tag).unwrap();
    assert_eq!(d, LinkDirection::Forward);
    assert_eq!(g.content, None);
    assert_eq!(g.value, None);
    assert_eq!(g.prefix, None);
    assert_eq!(g.extra, None);
    assert!(!g.agent_identity);
}

#[test]
fn tag_layout_is_prefix_filterable() {
    let f = fields(Some("holochain"), Some("0.990000000"), None, None, false);
    let tag = encode_tag(LinkDirection::Forward, &f);
    // header, marker, direction, then the content.
    assert!(tag.starts_with("\u{1}\u{166}\u{2192}holochain\u{0}"));
    // a partial tag built from a content prefix matches the full tag
    let filter = link_tag(LinkDirection::Forward, "holo");
    assert!(tag.starts_with(&filter));
    // and a filter for the other direction does not
    let other = link_tag(LinkDirection::Reverse, "holo");
    assert!(!tag.starts_with(&other));
}

#[test]
fn decode_rejects_short_and_unmarked_tags() {
    assert_eq!(decode_tag(""), Err(TrustAtomError::MalformedTag));
    assert_eq!(decode_tag("ab"), Err(TrustAtomError::MalformedTag));
    assert_eq!(decode_tag("xyz"), Err(TrustAtomError::MalformedTag));
    // right header and marker, unrecognized direction marker
    assert_eq!(decode_tag("\u{1}\u{166}x\u{0}\u{0}\u{0}\u{0}"), Err(TrustAtomError::MalformedTag));
}

#[test]
fn decode_rejects_wrong_field_count() {
    // no separators at all
    assert_eq!(decode_tag("\u{1}\u{166}\u{2192}abc"), Err(TrustAtomError::MalformedTag));
    // too many separators
    assert_eq!(
        decode_tag("\u{1}\u{166}\u{2192}a\u{0}b\u{0}c\u{0}\u{0}\u{0}"),
        Err(TrustAtomError::MalformedTag)
    );
}

#[test]
fn decode_rejects_bad_extra_and_flag_chunks() {
    // extra chunk not numeric
    assert_eq!(
        decode_tag("\u{1}\u{166}\u{2192}a\u{0}b\u{0}c\u{0}12x\u{0}"),
        Err(TrustAtomError::MalformedTag)
    );
    // flag chunk not empty or "1"
    assert_eq!(
        decode_tag("\u{1}\u{166}\u{2192}a\u{0}b\u{0}c\u{0}7\u{0}2"),
        Err(TrustAtomError::MalformedTag)
    );
    // extra chunk overflows u64
    assert_eq!(
        decode_tag("\u{1}\u{166}\u{2192}a\u{0}b\u{0}c\u{0}99999999999999999999999\u{0}"),
        Err(TrustAtomError::MalformedTag)
    );
}

#[test]
fn decode_accepts_handwritten_tag() {
    let (d, g) = decode_tag("\u{1}\u{166}\u{21a9}topic\u{0}0.800000000\u{0}\u{0}7\u{0}1").unwrap();
    assert_eq!(d, LinkDirection::Reverse);
    assert_eq!(g.content.as_deref(), Some("topic"));
    assert_eq!(g.value.as_deref(), Some("0.800000000"));
    assert_eq!(g.prefix, None);
    assert_eq!(g.extra, Some(7));
    assert!(g.agent_identity);
}
