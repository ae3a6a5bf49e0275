//! In-memory model of the external record/graph store.
//!
//! The store persists two things: content-addressed records (an
//! identical payload always maps to the same identifier, and is never
//! written twice) and directed edges — (base, target, opaque tag,
//! timestamp) tuples that are append-only: nothing ever deletes or
//! mutates an edge. Edges written locally receive a monotonically
//! increasing timestamp from the store; edges arriving by replication
//! keep the timestamp their originator assigned.
//!
//! Record identifiers are a deterministic 64-bit hash (FNV-1a) of the
//! payload's canonical serialization; as with any content-addressed
//! store, hash collisions are assumed absent.

use std::collections::BTreeMap;

use vstd::prelude::*;

use crate::codec::str_starts_with;
use crate::TrustAtomError;

verus! {

/// One directed edge of the graph store.
#[derive(Debug, PartialEq)]
pub struct Edge {
    pub base: u64,
    pub target: u64,
    pub tag: String,
    pub timestamp: u64,
}

impl Clone for Edge {
    fn clone(&self) -> (r: Self)
        ensures
            r == *self,
    {
        Edge {
            base: self.base,
            target: self.target,
            tag: self.tag.clone(),
            timestamp: self.timestamp,
        }
    }
}

/// An immutable key-to-string mapping, content-addressed, created once
/// and referenced by id from zero or more trust atoms. The fields form
/// a mapping, so keys are meant to be pairwise distinct
/// (`extra_fields_wf`); the canonical serialization collapses
/// duplicate keys, the later pair winning.
#[derive(Debug, PartialEq)]
pub struct Extra {
    pub fields: Vec<(String, String)>,
}

/// Well-formedness of an extra payload: no key occurs twice.
pub open spec fn extra_fields_wf(fields: Seq<(Seq<char>, Seq<char>)>) -> bool {
    forall|i: int, j: int| 0 <= i < j < fields.len() ==> (#[trigger] fields[i]).0 != (
    #[trigger] fields[j]).0
}

/// A plain text record, the simplest kind of rateable subject.
#[derive(Debug, PartialEq)]
pub struct StringTarget(pub String);

#[derive(Debug, PartialEq)]
pub enum RecordPayload {
    Extra(Extra),
    StringTarget(StringTarget),
}

#[derive(Debug, PartialEq)]
pub struct Record {
    pub id: u64,
    pub payload: RecordPayload,
}

/// Mathematical image of a record payload.
pub enum PayloadV {
    ExtraV(Seq<(Seq<char>, Seq<char>)>),
    StringTargetV(Seq<char>),
}

pub open spec fn fields_view(fields: Seq<(String, String)>) -> Seq<(Seq<char>, Seq<char>)> {
    fields.map_values(|p: (String, String)| (p.0@, p.1@))
}

pub open spec fn payload_view(p: RecordPayload) -> PayloadV {
    match p {
        RecordPayload::Extra(x) => PayloadV::ExtraV(fields_view(x.fields@)),
        RecordPayload::StringTarget(t) => PayloadV::StringTargetV(t.0@),
    }
}

pub open spec fn records_view(rs: Seq<Record>) -> Seq<(u64, PayloadV)> {
    rs.map_values(|r: Record| (r.id, payload_view(r.payload)))
}

// ---------------------------------------------------------------------
// Content addressing
// ---------------------------------------------------------------------

/// The canonical JSON bytes of an extra payload's field map. The name
/// stands for what `serde_json` returns on the `BTreeMap` built from
/// the pairs; it is a function of the pairs alone.
pub uninterp spec fn json_bytes_of(fields: Seq<(Seq<char>, Seq<char>)>) -> Seq<u8>;

/// Relies on serde_json::to_vec: the canonical JSON serialization of a
/// string-keyed map (in BTreeMap key order), a deterministic function
/// of the field pairs alone. Serializing a map with string keys and
/// string values cannot fail.
#[verifier::external_body]
fn extra_canonical_bytes(fields: &Vec<(String, String)>) -> (r: Vec<u8>)
    ensures
        r@ == json_bytes_of(fields_view(fields@)),
{
    let map: BTreeMap<String, String> = fields.iter().cloned().collect();
    serde_json::to_vec(&map).unwrap_or_default()
}

/// One step of the FNV-1a 64-bit hash.
pub open spec fn fnv_step(h: u64, b: u8) -> u64 {
    (((h ^ (b as u64)) * 0x100000001b3) % 0x10000000000000000) as u64
}

/// FNV-1a over a byte sequence, the store's content-address function.
pub open spec fn fnv64_spec(s: Seq<u8>) -> u64
    decreases s.len(),
{
    if s.len() == 0 {
        0xcbf29ce484222325
    } else {
        fnv_step(fnv64_spec(s.drop_last()), s.last())
    }
}

fn fnv64(bytes: &Vec<u8>) -> (h: u64)
    ensures
        h == fnv64_spec(bytes@),
{
    let mut h: u64 = 0xcbf29ce484222325;
    let mut i: usize = 0;
    while i < bytes.len()
        invariant
            0 <= i <= bytes@.len(),
            h == fnv64_spec(bytes@.take(i as int)),
        decreases bytes@.len() - i,
    {
        let x: u64 = h ^ (bytes[i] as u64);
        let p: u128 = (x as u128) * 0x100000001b3;
        let h2: u64 = (p % 0x10000000000000000u128) as u64;
        proof {
            assert(bytes@.take(i + 1).drop_last() =~= bytes@.take(i as int));
            assert(bytes@.take(i + 1).last() == bytes@[i as int]);
        }
        h = h2;
        i += 1;
    }
    proof {
        assert(bytes@.take(bytes@.len() as int) =~= bytes@);
    }
    h
}

/// The content-derived identifier of an extra payload.
pub open spec fn spec_extra_id(fields: Seq<(Seq<char>, Seq<char>)>) -> u64 {
    fnv64_spec(json_bytes_of(fields))
}

/// Compute the deterministic identifier of an extra payload without
/// writing anything, so callers can check existence or deduplicate.
pub fn calc_extra_hash(input: &Extra) -> (id: u64)
    ensures
        id == spec_extra_id(fields_view(input.fields@)),
{
    let bytes = extra_canonical_bytes(&input.fields);
    fnv64(&bytes)
}

/// The content-derived identifier of a string target record.
pub open spec fn spec_string_target_id(s: Seq<char>) -> u64 {
    fnv64_spec(vstd::utf8::encode_utf8(s))
}

// ---------------------------------------------------------------------
// Helpers shared by the store methods
// ---------------------------------------------------------------------

fn clone_fields(v: &Vec<(String, String)>) -> (r: Vec<(String, String)>)
    ensures
        r@ == v@,
{
    let mut r: Vec<(String, String)> = Vec::new();
    let mut i: usize = 0;
    while i < v.len()
        invariant
            0 <= i <= v@.len(),
            r@ == v@.take(i as int),
        decreases v@.len() - i,
    {
        let p = &v[i];
        let q = (p.0.clone(), p.1.clone());
        proof {
            assert(q == v@[i as int]);
            assert(v@.take(i + 1).drop_last() =~= v@.take(i as int));
            assert(v@.take(i + 1).last() == v@[i as int]);
        }
        r.push(q);
        i += 1;
    }
    proof {
        assert(v@.take(v@.len() as int) =~= v@);
    }
    r
}

pub open spec fn edge_matches(e: Edge, base: u64, f: Option<Seq<char>>) -> bool {
    e.base == base && match f {
        Some(p) => p.is_prefix_of(e.tag@),
        None => true,
    }
}

/// The edges of `base`, in store order, whose tag starts with the
/// filter (when one is given).
pub open spec fn spec_list_edges(edges: Seq<Edge>, base: u64, f: Option<Seq<char>>) -> Seq<Edge>
    decreases edges.len(),
{
    if edges.len() == 0 {
        Seq::empty()
    } else {
        let init = spec_list_edges(edges.drop_last(), base, f);
        if edge_matches(edges.last(), base, f) {
            init.push(edges.last())
        } else {
            init
        }
    }
}

pub open spec fn opt_str_ref_view(f: Option<&str>) -> Option<Seq<char>> {
    match f {
        Some(p) => Some(p@),
        None => None,
    }
}

pub open spec fn has_record_id(rs: Seq<(u64, PayloadV)>, id: u64) -> bool {
    exists|i: int| 0 <= i < rs.len() && rs[i].0 == id
}

/// The payload of the first record carrying `id`, if any.
pub open spec fn spec_read_record(rs: Seq<(u64, PayloadV)>, id: u64) -> Option<PayloadV>
    decreases rs.len(),
{
    if rs.len() == 0 {
        None
    } else if rs[0].0 == id {
        Some(rs[0].1)
    } else {
        spec_read_record(rs.drop_first(), id)
    }
}

// ---------------------------------------------------------------------
// The store
// ---------------------------------------------------------------------

/// The store model: every operation of the collaborator contract the
/// library consumes, over plain in-memory state.
#[derive(Debug)]
pub struct Store {
    pub edges: Vec<Edge>,
    pub records: Vec<Record>,
    pub next_timestamp: u64,
    pub local_agent: u64,
}

impl Store {
    pub open spec fn records_v(&self) -> Seq<(u64, PayloadV)> {
        records_view(self.records@)
    }

    /// An empty store for the given local agent identity.
    pub fn new(local_agent: u64) -> (s: Store)
        ensures
            s.edges@ == Seq::<Edge>::empty(),
            s.records_v() == Seq::<(u64, PayloadV)>::empty(),
            s.next_timestamp == 0,
            s.local_agent == local_agent,
    {
        let s = Store { edges: Vec::new(), records: Vec::new(), next_timestamp: 0, local_agent };
        proof {
            assert(s.records_v() =~= Seq::<(u64, PayloadV)>::empty());
        }
        s
    }

    /// The identity of the caller, supplied by the host.
    pub fn local_agent_id(&self) -> (a: u64)
        ensures
            a == self.local_agent,
    {
        self.local_agent
    }

    /// Switch the caller identity; the host side of the model, used
    /// when several agents share one store snapshot.
    pub fn set_local_agent(&mut self, a: u64)
        ensures
            final(self).local_agent == a,
            final(self).edges@ == old(self).edges@,
            final(self).records_v() == old(self).records_v(),
            final(self).next_timestamp == old(self).next_timestamp,
    {
        self.local_agent = a;
    }

    /// Append one edge under the next store-assigned timestamp. The
    /// model clock saturates at the top of its range instead of
    /// wrapping.
    pub fn append_edge(&mut self, base: u64, target: u64, tag: String) -> (ts: u64)
        ensures
            ts == old(self).next_timestamp,
            final(self).edges@ == old(self).edges@.push(
                Edge { base, target, tag, timestamp: old(self).next_timestamp },
            ),
            final(self).records_v() == old(self).records_v(),
            final(self).local_agent == old(self).local_agent,
            old(self).next_timestamp < u64::MAX ==> final(self).next_timestamp == old(
                self,
            ).next_timestamp + 1,
            old(self).next_timestamp == u64::MAX ==> final(self).next_timestamp == u64::MAX,
    {
        let ts = self.next_timestamp;
        self.edges.push(Edge { base, target, tag, timestamp: ts });
        if self.next_timestamp < u64::MAX {
            self.next_timestamp = self.next_timestamp + 1;
        }
        ts
    }

    /// Append one edge that arrived by replication, keeping the
    /// timestamp its originator assigned.
    pub fn append_edge_at(&mut self, base: u64, target: u64, tag: String, timestamp: u64)
        ensures
            final(self).edges@ == old(self).edges@.push(Edge { base, target, tag, timestamp }),
            final(self).records_v() == old(self).records_v(),
            final(self).local_agent == old(self).local_agent,
            final(self).next_timestamp == old(self).next_timestamp,
    {
        self.edges.push(Edge { base, target, tag, timestamp });
    }

    /// All edges based at `base`, optionally filtered to tags starting
    /// with `tag_filter`, in store order.
    pub fn list_edges(&self, base: u64, tag_filter: Option<&str>) -> (r: Vec<Edge>)
        ensures
            r@ == spec_list_edges(self.edges@, base, opt_str_ref_view(tag_filter)),
    {
        let mut r: Vec<Edge> = Vec::new();
        let mut i: usize = 0;
        while i < self.edges.len()
            invariant
                0 <= i <= self.edges@.len(),
                r@ == spec_list_edges(
                    self.edges@.take(i as int),
                    base,
                    opt_str_ref_view(tag_filter),
                ),
            decreases self.edges@.len() - i,
        {
            let e = &self.edges[i];
            let keep = e.base == base && match tag_filter {
                Some(f) => str_starts_with(e.tag.as_str(), f),
                None => true,
            };
            proof {
                assert(self.edges@.take(i + 1).drop_last() =~= self.edges@.take(i as int));
                assert(self.edges@.take(i + 1).last() == self.edges@[i as int]);
            }
            if keep {
                r.push(e.clone());
            }
            i += 1;
        }
        proof {
            assert(self.edges@.take(self.edges@.len() as int) =~= self.edges@);
        }
        r
    }

    fn find_record_index(&self, id: u64) -> (r: Option<usize>)
        ensures
            match r {
                Some(i) => i < self.records@.len() && self.records@[i as int].id == id
                    && spec_read_record(self.records_v(), id) == Some(
                    self.records_v()[i as int].1,
                ),
                None => !has_record_id(self.records_v(), id) && spec_read_record(
                    self.records_v(),
                    id,
                ) is None,
            },
    {
        let mut i: usize = 0;
        proof {
            assert(self.records_v().skip(0) =~= self.records_v());
        }
        while i < self.records.len()
            invariant
                0 <= i <= self.records@.len(),
                forall|j: int| 0 <= j < i ==> #[trigger] self.records@[j].id != id,
                spec_read_record(self.records_v(), id) == spec_read_record(
                    self.records_v().skip(i as int),
                    id,
                ),
            decreases self.records@.len() - i,
        {
            if self.records[i].id == id {
                proof {
                    assert(self.records_v().skip(i as int)[0] == self.records_v()[i as int]);
                }
                return Some(i);
            }
            proof {
                assert(self.records_v().skip(i as int).drop_first() =~= self.records_v().skip(
                    i + 1,
                ));
                assert(self.records_v().skip(i as int)[0] == self.records_v()[i as int]);
            }
            i += 1;
        }
        proof {
            assert(self.records_v().skip(self.records@.len() as int) =~= Seq::<(
                u64,
                PayloadV,
            )>::empty());
        }
        None
    }

    /// Write an extra record, content-addressed and idempotent: an
    /// identical payload always yields the same identifier, and a
    /// payload whose identifier is already present is not written
    /// again.
    pub fn write_extra(&mut self, extra: &Extra) -> (id: u64)
        ensures
            id == spec_extra_id(fields_view(extra.fields@)),
            final(self).edges@ == old(self).edges@,
            final(self).local_agent == old(self).local_agent,
            final(self).next_timestamp == old(self).next_timestamp,
            has_record_id(old(self).records_v(), id) ==> final(self).records_v() == old(
                self,
            ).records_v(),
            !has_record_id(old(self).records_v(), id) ==> final(self).records_v() == old(
                self,
            ).records_v().push((id, PayloadV::ExtraV(fields_view(extra.fields@)))),
    {
        let id = calc_extra_hash(extra);
        match self.find_record_index(id) {
            Some(_) => id,
            None => {
                let rec = Record {
                    id,
                    payload: RecordPayload::Extra(Extra { fields: clone_fields(&extra.fields) }),
                };
                proof {
                    assert(records_view(self.records@.push(rec)) =~= records_view(
                        self.records@,
                    ).push((id, payload_view(rec.payload))));
                    assert(fields_view(rec.payload->Extra_0.fields@) == fields_view(
                        extra.fields@,
                    ));
                }
                self.records.push(rec);
                id
            },
        }
    }

    /// Write a string target record, content-addressed and idempotent
    /// in the same way.
    pub fn write_string_target(&mut self, input: &StringTarget) -> (id: u64)
        ensures
            id == spec_string_target_id(input.0@),
            final(self).edges@ == old(self).edges@,
            final(self).local_agent == old(self).local_agent,
            final(self).next_timestamp == old(self).next_timestamp,
            has_record_id(old(self).records_v(), id) ==> final(self).records_v() == old(
                self,
            ).records_v(),
            !has_record_id(old(self).records_v(), id) ==> final(self).records_v() == old(
                self,
            ).records_v().push((id, PayloadV::StringTargetV(input.0@))),
    {
        let bytes = input.0.as_str().as_bytes_vec();
        let id = fnv64(&bytes);
        match self.find_record_index(id) {
            Some(_) => id,
            None => {
                let rec = Record {
                    id,
                    payload: RecordPayload::StringTarget(
                        StringTarget(String::from_str(input.0.as_str())),
                    ),
                };
                proof {
                    assert(records_view(self.records@.push(rec)) =~= records_view(
                        self.records@,
                    ).push((id, payload_view(rec.payload))));
                }
                self.records.push(rec);
                id
            },
        }
    }

    /// Resolve an extra record by its content-derived identifier;
    /// fails with `NotFound` if no extra record carries it.
    pub fn read_extra(&self, id: u64) -> (r: Result<Extra, TrustAtomError>)
        ensures
            match r {
                Ok(x) => spec_read_record(self.records_v(), id) == Some(
                    PayloadV::ExtraV(fields_view(x.fields@)),
                ),
                Err(e) => e == TrustAtomError::NotFound && !(spec_read_record(
                    self.records_v(),
                    id,
                ) matches Some(PayloadV::ExtraV(_))),
            },
    {
        match self.find_record_index(id) {
            Some(i) => {
                match &self.records[i].payload {
                    RecordPayload::Extra(x) => {
                        proof {
                            assert(self.records_v()[i as int].1 == payload_view(
                                self.records@[i as int].payload,
                            ));
                        }
                        Ok(Extra { fields: clone_fields(&x.fields) })
                    },
                    RecordPayload::StringTarget(_) => Err(TrustAtomError::NotFound),
                }
            },
            None => Err(TrustAtomError::NotFound),
        }
    }
}

/// Idempotent creation: writing an identical extra payload twice
/// returns the same identifier both times and leaves exactly one
/// record — the second write changes nothing at all.
pub proof fn lemma_extra_write_idempotent(s0: Store, s1: Store, s2: Store, x: Extra, id1: u64, id2: u64)
    requires
        id1 == spec_extra_id(fields_view(x.fields@)),
        id2 == spec_extra_id(fields_view(x.fields@)),
        !has_record_id(s0.records_v(), id1),
        s1.records_v() == s0.records_v().push((id1, PayloadV::ExtraV(fields_view(x.fields@)))),
        has_record_id(s1.records_v(), id2) ==> s2.records_v() == s1.records_v(),
        !has_record_id(s1.records_v(), id2) ==> s2.records_v() == s1.records_v().push(
            (id2, PayloadV::ExtraV(fields_view(x.fields@))),
        ),
    ensures
        id1 == id2,
        s2.records_v() == s1.records_v(),
{
    assert(s1.records_v()[s0.records_v().len() as int].0 == id2);
}

} // verus!
