//! A peer-to-peer trust graph: agents publish trust atoms rating
//! content-addressed subjects, and any agent can recompute an aggregate
//! rollup rating for a subject by walking the graph of other agents'
//! ratings, weighted by how much the local agent trusts those agents.
//!
//! The crate has four parts: a tag codec that packs a trust atom's fields
//! into the byte payload of a directed edge and back, a store model that
//! captures the collaborator contract of the external record/graph store,
//! a query engine that turns structured filters into store lookups, and a
//! rollup engine that synthesises weighted consensus atoms.

use vstd::prelude::*;

pub mod codec;
pub mod rating;
pub mod store;
pub mod trust_atom;
pub mod trust_graph;

verus! {

/// The error taxonomy of the whole library.
///
/// `MalformedTag` is a structural violation found while decoding an edge
/// tag, `NotFound` a missing record lookup, `AmbiguousQuery` a query with
/// zero or both of source/target, and `NumericParseFailure` a stored
/// rating that does not parse as the expected bounded decimal format.
#[derive(Clone, Copy, Debug, PartialEq, Eq, Structural)]
pub enum TrustAtomError {
    MalformedTag,
    NotFound,
    AmbiguousQuery,
    NumericParseFailure,
}

// ---------------------------------------------------------------------
// The operations a request layer may call
// ---------------------------------------------------------------------

/// The fields of one trust statement to publish.
#[derive(Debug)]
pub struct TrustAtomInput {
    pub target: u64,
    pub prefix: Option<String>,
    pub content: Option<String>,
    pub value: Option<String>,
    pub extra: Option<store::Extra>,
    pub is_agent_identity: bool,
}

/// A filter query; exactly one of `source` and `target` must be set.
#[derive(Debug)]
pub struct QueryInput {
    pub source: Option<u64>,
    pub target: Option<u64>,
    pub content_full: Option<String>,
    pub content_starts_with: Option<String>,
    pub value_starts_with: Option<String>,
}

/// A filter query fixed to the locally authenticated agent as source.
#[derive(Debug)]
pub struct QueryMineInput {
    pub target: Option<u64>,
    pub content_full: Option<String>,
    pub content_starts_with: Option<String>,
    pub value_starts_with: Option<String>,
}

/// Publish one trust atom; see `trust_atom::create`.
pub fn create_trust_atom(store: &mut store::Store, input: TrustAtomInput) -> (r: Result<
    trust_atom::TrustAtom,
    TrustAtomError,
>)
    requires
        match input.extra {
            Some(x) => store::extra_fields_wf(store::fields_view(x.fields@)),
            None => true,
        },
    ensures
        match r {
            Ok(a) => {
                let canon = trust_atom::spec_canon_value(codec::opt_str_view(input.value))->0;
                let eid = trust_atom::spec_extra_opt_id(input.extra);
                let f = trust_atom::spec_create_fields(
                    codec::opt_str_view(input.content),
                    canon,
                    codec::opt_str_view(input.prefix),
                    eid,
                    input.is_agent_identity,
                );
                &&& trust_atom::spec_canon_value(codec::opt_str_view(input.value)) is Some
                &&& a@ == trust_atom::TrustAtomV {
                    source: old(store).local_agent,
                    target: input.target,
                    prefix: codec::opt_str_view(input.prefix),
                    content: codec::opt_str_view(input.content),
                    value: canon,
                    extra: eid,
                    is_agent_identity: input.is_agent_identity,
                }
                &&& final(store).edges@.len() == old(store).edges@.len() + 2
                &&& (forall|k: int|
                    0 <= k < old(store).edges@.len() ==> final(store).edges@[k] == old(
                        store,
                    ).edges@[k])
                &&& final(store).edges@[old(store).edges@.len() as int].base == old(
                    store,
                ).local_agent
                &&& final(store).edges@[old(store).edges@.len() as int].target == input.target
                &&& final(store).edges@[old(store).edges@.len() as int].tag@ == codec::spec_tag(
                    codec::LinkDirection::Forward,
                    f,
                )
                &&& final(store).edges@[old(store).edges@.len() as int].timestamp == old(
                    store,
                ).next_timestamp
                &&& final(store).edges@[old(store).edges@.len() as int + 1].base == input.target
                &&& final(store).edges@[old(store).edges@.len() as int + 1].target == old(
                    store,
                ).local_agent
                &&& final(store).edges@[old(store).edges@.len() as int + 1].tag@
                    == codec::spec_tag(codec::LinkDirection::Reverse, f)
                &&& final(store).edges@[old(store).edges@.len() as int + 1].timestamp
                    == trust_atom::sat_inc(old(store).next_timestamp)
                &&& final(store).local_agent == old(store).local_agent
                &&& (match eid {
                    Some(id) => {
                        if store::has_record_id(old(store).records_v(), id) {
                            final(store).records_v() == old(store).records_v()
                        } else {
                            final(store).records_v() == old(store).records_v().push(
                                (
                                    id,
                                    store::PayloadV::ExtraV(
                                        store::fields_view(input.extra->0.fields@),
                                    ),
                                ),
                            )
                        }
                    },
                    None => final(store).records_v() == old(store).records_v(),
                })
            },
            Err(e) => {
                &&& e == TrustAtomError::NumericParseFailure
                &&& trust_atom::spec_canon_value(codec::opt_str_view(input.value)) is None
                &&& final(store).edges@ == old(store).edges@
                &&& final(store).records_v() == old(store).records_v()
                &&& final(store).next_timestamp == old(store).next_timestamp
                &&& final(store).local_agent == old(store).local_agent
            },
        },
{
    trust_atom::create(
        store,
        input.target,
        input.prefix,
        input.content,
        input.value,
        input.extra,
        input.is_agent_identity,
    )
}

/// Resolve an extra record by its content-derived identifier.
pub fn get_extra(store: &store::Store, id: u64) -> (r: Result<store::Extra, TrustAtomError>)
    ensures
        match r {
            Ok(x) => store::spec_read_record(store.records_v(), id) == Some(
                store::PayloadV::ExtraV(store::fields_view(x.fields@)),
            ),
            Err(e) => e == TrustAtomError::NotFound && !(store::spec_read_record(
                store.records_v(),
                id,
            ) matches Some(store::PayloadV::ExtraV(_))),
        },
{
    store.read_extra(id)
}

/// Answer a filter query; see `trust_atom::query`.
pub fn query(store: &store::Store, input: QueryInput) -> (r: Result<
    Vec<trust_atom::TrustAtom>,
    TrustAtomError,
>)
    ensures
        match r {
            Ok(v) => trust_atom::spec_query(
                store.edges@,
                input.source,
                input.target,
                codec::opt_str_view(input.content_full),
                codec::opt_str_view(input.content_starts_with),
                codec::opt_str_view(input.value_starts_with),
            ) == Ok::<_, TrustAtomError>(trust_atom::atoms_view(v@)),
            Err(e) => trust_atom::spec_query(
                store.edges@,
                input.source,
                input.target,
                codec::opt_str_view(input.content_full),
                codec::opt_str_view(input.content_starts_with),
                codec::opt_str_view(input.value_starts_with),
            ) == Err::<Seq<trust_atom::TrustAtomV>, _>(e),
        },
{
    trust_atom::query(
        store,
        input.source,
        input.target,
        input.content_full,
        input.content_starts_with,
        input.value_starts_with,
    )
}

/// Answer a filter query with the local agent as source.
pub fn query_mine(store: &store::Store, input: QueryMineInput) -> (r: Result<
    Vec<trust_atom::TrustAtom>,
    TrustAtomError,
>)
    ensures
        match r {
            Ok(v) => trust_atom::spec_query(
                store.edges@,
                Some(store.local_agent),
                input.target,
                codec::opt_str_view(input.content_full),
                codec::opt_str_view(input.content_starts_with),
                codec::opt_str_view(input.value_starts_with),
            ) == Ok::<_, TrustAtomError>(trust_atom::atoms_view(v@)),
            Err(e) => trust_atom::spec_query(
                store.edges@,
                Some(store.local_agent),
                input.target,
                codec::opt_str_view(input.content_full),
                codec::opt_str_view(input.content_starts_with),
                codec::opt_str_view(input.value_starts_with),
            ) == Err::<Seq<trust_atom::TrustAtomV>, _>(e),
        },
{
    trust_atom::query_mine(
        store,
        input.target,
        input.content_full,
        input.content_starts_with,
        input.value_starts_with,
    )
}

/// Persist a plain text record and return its content-derived id,
/// idempotently: identical text always maps to the same id and is
/// never written twice.
pub fn create_string_target(store: &mut store::Store, input: String) -> (id: u64)
    ensures
        id == store::spec_string_target_id(input@),
        final(store).edges@ == old(store).edges@,
        final(store).local_agent == old(store).local_agent,
        final(store).next_timestamp == old(store).next_timestamp,
        store::has_record_id(old(store).records_v(), id) ==> final(store).records_v() == old(
            store,
        ).records_v(),
        !store::has_record_id(old(store).records_v(), id) ==> final(store).records_v() == old(
            store,
        ).records_v().push((id, store::PayloadV::StringTargetV(input@))),
{
    store.write_string_target(&store::StringTarget(input))
}

} // verus!
