//! Trust atoms: creation of the paired edges behind one trust
//! statement, and the query engine that turns structured filters into
//! store lookups plus in-memory predicate filtering.

use vstd::prelude::*;

use crate::codec::{
    decode_tag, encode_tag, link_tag, opt_chars, opt_str_view, spec_decode, spec_tag, str_starts_with,
    tag_start, LinkDirection, TagFields, TagFieldsV,
};
use crate::rating::{format_rating, parse_rating, spec_format_rating, spec_parse_rating};
use crate::store::{
    fields_view, has_record_id, spec_extra_id, spec_list_edges, Edge, Extra, PayloadV, Store,
};
use crate::TrustAtomError;

verus! {

/// Client-facing representation of one trust statement. `source` and
/// `target` are the content-addressed identifiers of the rating agent
/// and the rated subject; `value` is the canonicalized fixed-precision
/// rating text; `prefix` distinguishes statement classes (the reserved
/// value "rollup" marks synthesized aggregates); `extra` optionally
/// references an extra record; `is_agent_identity` flags the target as
/// a rating-capable identity.
#[derive(Debug, PartialEq)]
pub struct TrustAtom {
    pub source: u64,
    pub target: u64,
    pub prefix: Option<String>,
    pub content: Option<String>,
    pub value: Option<String>,
    pub extra: Option<u64>,
    pub is_agent_identity: bool,
}

/// Mathematical image of a trust atom.
pub struct TrustAtomV {
    pub source: u64,
    pub target: u64,
    pub prefix: Option<Seq<char>>,
    pub content: Option<Seq<char>>,
    pub value: Option<Seq<char>>,
    pub extra: Option<u64>,
    pub is_agent_identity: bool,
}

impl View for TrustAtom {
    type V = TrustAtomV;

    open spec fn view(&self) -> TrustAtomV {
        TrustAtomV {
            source: self.source,
            target: self.target,
            prefix: opt_str_view(self.prefix),
            content: opt_str_view(self.content),
            value: opt_str_view(self.value),
            extra: self.extra,
            is_agent_identity: self.is_agent_identity,
        }
    }
}

pub fn clone_opt_string(o: &Option<String>) -> (r: Option<String>)
    ensures
        r == *o,
{
    match o {
        Some(s) => Some(s.clone()),
        None => None,
    }
}

impl Clone for TrustAtom {
    fn clone(&self) -> (r: Self)
        ensures
            r == *self,
    {
        TrustAtom {
            source: self.source,
            target: self.target,
            prefix: clone_opt_string(&self.prefix),
            content: clone_opt_string(&self.content),
            value: clone_opt_string(&self.value),
            extra: self.extra,
            is_agent_identity: self.is_agent_identity,
        }
    }
}

pub open spec fn atoms_view(v: Seq<TrustAtom>) -> Seq<TrustAtomV> {
    v.map_values(|a: TrustAtom| a@)
}

// ---------------------------------------------------------------------
// Edge-to-atom conversion
// ---------------------------------------------------------------------

/// The atom read off an edge of direction `d` based at `base`: on a
/// forward edge the base is the source, on a reverse edge the target.
pub open spec fn spec_atom_of_edge(e: Edge, d: LinkDirection, base: u64) -> Option<TrustAtomV> {
    match spec_decode(e.tag@) {
        Some(df) => Some(
            TrustAtomV {
                source: match d {
                    LinkDirection::Forward => base,
                    LinkDirection::Reverse => e.target,
                },
                target: match d {
                    LinkDirection::Forward => e.target,
                    LinkDirection::Reverse => base,
                },
                prefix: df.1.prefix,
                content: df.1.content,
                value: df.1.value,
                extra: df.1.extra,
                is_agent_identity: df.1.agent_identity,
            },
        ),
        None => None,
    }
}

pub fn convert_edge_to_trust_atom(e: &Edge, d: LinkDirection, base: u64) -> (r: Result<
    TrustAtom,
    TrustAtomError,
>)
    ensures
        match r {
            Ok(a) => spec_atom_of_edge(*e, d, base) == Some(a@),
            Err(err) => spec_atom_of_edge(*e, d, base) is None && err
                == TrustAtomError::MalformedTag,
        },
{
    match decode_tag(e.tag.as_str()) {
        Ok((_, f)) => {
            let (source, target) = match d {
                LinkDirection::Forward => (base, e.target),
                LinkDirection::Reverse => (e.target, base),
            };
            Ok(
                TrustAtom {
                    source,
                    target,
                    prefix: f.prefix,
                    content: f.content,
                    value: f.value,
                    extra: f.extra,
                    is_agent_identity: f.agent_identity,
                },
            )
        },
        Err(err) => Err(err),
    }
}

pub open spec fn all_edges_decodable(edges: Seq<Edge>) -> bool {
    forall|i: int| 0 <= i < edges.len() ==> spec_decode(#[trigger] edges[i].tag@) is Some
}

/// The atoms of a fully decodable edge sequence, in order.
pub open spec fn spec_atoms_of_edges(edges: Seq<Edge>, d: LinkDirection, base: u64) -> Seq<
    TrustAtomV,
>
    decreases edges.len(),
{
    if edges.len() == 0 {
        Seq::empty()
    } else {
        let init = spec_atoms_of_edges(edges.drop_last(), d, base);
        match spec_atom_of_edge(edges.last(), d, base) {
            Some(a) => init.push(a),
            None => init,
        }
    }
}

pub fn convert_edges_to_trust_atoms(edges: &Vec<Edge>, d: LinkDirection, base: u64) -> (r: Result<
    Vec<TrustAtom>,
    TrustAtomError,
>)
    ensures
        match r {
            Ok(v) => all_edges_decodable(edges@) && atoms_view(v@) == spec_atoms_of_edges(
                edges@,
                d,
                base,
            ),
            Err(err) => !all_edges_decodable(edges@) && err == TrustAtomError::MalformedTag,
        },
{
    let mut out: Vec<TrustAtom> = Vec::new();
    let mut i: usize = 0;
    while i < edges.len()
        invariant
            0 <= i <= edges@.len(),
            all_edges_decodable(edges@.take(i as int)),
            atoms_view(out@) == spec_atoms_of_edges(edges@.take(i as int), d, base),
        decreases edges@.len() - i,
    {
        proof {
            assert(edges@.take(i + 1).drop_last() =~= edges@.take(i as int));
            assert(edges@.take(i + 1).last() == edges@[i as int]);
        }
        match convert_edge_to_trust_atom(&edges[i], d, base) {
            Ok(a) => {
                proof {
                    assert(atoms_view(out@.push(a)) =~= atoms_view(out@).push(a@));
                    assert(forall|j: int|
                        0 <= j < i + 1 ==> edges@.take(i + 1)[j] == #[trigger] edges@[j]);
                }
                out.push(a);
            },
            Err(err) => {
                return Err(err);
            },
        }
        i += 1;
    }
    proof {
        assert(edges@.take(edges@.len() as int) =~= edges@);
    }
    Ok(out)
}

// ---------------------------------------------------------------------
// Creation
// ---------------------------------------------------------------------

/// The store clock after one tick.
pub open spec fn sat_inc(t: u64) -> u64 {
    if t < u64::MAX {
        (t + 1) as u64
    } else {
        u64::MAX
    }
}

/// Canonicalization of an input value: absent stays absent, present
/// text must parse as a bounded rating and is reformatted with exactly
/// nine fractional digits. `None` stands for a rejected input.
pub open spec fn spec_canon_value(v: Option<Seq<char>>) -> Option<Option<Seq<char>>> {
    match v {
        None => Some(None),
        Some(s) => match spec_parse_rating(s) {
            Some(x) => Some(Some(spec_format_rating(x as int))),
            None => None,
        },
    }
}

/// The identifier the extra payload of a create call maps to, if one
/// was given.
pub open spec fn spec_extra_opt_id(extra: Option<Extra>) -> Option<u64> {
    match extra {
        Some(x) => Some(spec_extra_id(fields_view(x.fields@))),
        None => None,
    }
}

/// The tag fields a create call encodes.
pub open spec fn spec_create_fields(
    content: Option<Seq<char>>,
    canon: Option<Seq<char>>,
    prefix: Option<Seq<char>>,
    extra_id: Option<u64>,
    is_agent_identity: bool,
) -> TagFieldsV {
    TagFieldsV {
        content,
        value: canon,
        prefix,
        extra: extra_id,
        agent_identity: is_agent_identity,
    }
}

/// Create one trust atom: canonicalize the value, ensure the extra
/// record exists (idempotently), and append the forward and backward
/// edges under the next two store timestamps. Fails — before touching
/// the store — with `NumericParseFailure` exactly when a present value
/// does not parse as a bounded rating.
pub fn create(
    store: &mut Store,
    target: u64,
    prefix: Option<String>,
    content: Option<String>,
    value: Option<String>,
    extra: Option<Extra>,
    is_agent_identity: bool,
) -> (r: Result<TrustAtom, TrustAtomError>)
    requires
        match extra {
            Some(x) => crate::store::extra_fields_wf(fields_view(x.fields@)),
            None => true,
        },
    ensures
        match r {
            Ok(a) => {
                let canon = spec_canon_value(opt_str_view(value))->0;
                let eid = spec_extra_opt_id(extra);
                let f = spec_create_fields(
                    opt_str_view(content),
                    canon,
                    opt_str_view(prefix),
                    eid,
                    is_agent_identity,
                );
                &&& spec_canon_value(opt_str_view(value)) is Some
                &&& a@ == TrustAtomV {
                    source: old(store).local_agent,
                    target,
                    prefix: opt_str_view(prefix),
                    content: opt_str_view(content),
                    value: canon,
                    extra: eid,
                    is_agent_identity,
                }
                &&& final(store).edges@ == old(store).edges@.push(
                    Edge {
                        base: old(store).local_agent,
                        target,
                        tag: final(store).edges@[old(store).edges@.len() as int].tag,
                        timestamp: old(store).next_timestamp,
                    },
                ).push(
                    Edge {
                        base: target,
                        target: old(store).local_agent,
                        tag: final(store).edges@[old(store).edges@.len() as int + 1].tag,
                        timestamp: sat_inc(old(store).next_timestamp),
                    },
                )
                &&& final(store).edges@[old(store).edges@.len() as int].tag@ == spec_tag(
                    LinkDirection::Forward,
                    f,
                )
                &&& final(store).edges@[old(store).edges@.len() as int + 1].tag@ == spec_tag(
                    LinkDirection::Reverse,
                    f,
                )
                &&& final(store).next_timestamp == sat_inc(sat_inc(old(store).next_timestamp))
                &&& final(store).local_agent == old(store).local_agent
                &&& (match eid {
                    Some(id) => {
                        if has_record_id(old(store).records_v(), id) {
                            final(store).records_v() == old(store).records_v()
                        } else {
                            final(store).records_v() == old(store).records_v().push(
                                (id, PayloadV::ExtraV(fields_view(extra->0.fields@))),
                            )
                        }
                    },
                    None => final(store).records_v() == old(store).records_v(),
                })
            },
            Err(e) => {
                &&& e == TrustAtomError::NumericParseFailure
                &&& spec_canon_value(opt_str_view(value)) is None
                &&& final(store).edges@ == old(store).edges@
                &&& final(store).records_v() == old(store).records_v()
                &&& final(store).next_timestamp == old(store).next_timestamp
                &&& final(store).local_agent == old(store).local_agent
            },
        },
{
    let canonical: Option<String> = match &value {
        Some(s) => {
            match parse_rating(s.as_str()) {
                Ok(v) => Some(format_rating(v)),
                Err(e) => {
                    return Err(e);
                },
            }
        },
        None => None,
    };
    let extra_id: Option<u64> = match &extra {
        Some(x) => Some(store.write_extra(x)),
        None => None,
    };
    let me = store.local_agent_id();
    let fields = TagFields {
        content: clone_opt_string(&content),
        value: clone_opt_string(&canonical),
        prefix: clone_opt_string(&prefix),
        extra: extra_id,
        agent_identity: is_agent_identity,
    };
    let forward_tag = encode_tag(LinkDirection::Forward, &fields);
    let backward_tag = encode_tag(LinkDirection::Reverse, &fields);
    store.append_edge(me, target, forward_tag);
    store.append_edge(target, me, backward_tag);
    Ok(
        TrustAtom {
            source: me,
            target,
            prefix,
            content,
            value: canonical,
            extra: extra_id,
            is_agent_identity,
        },
    )
}

// ---------------------------------------------------------------------
// Query
// ---------------------------------------------------------------------

/// The post-decoding filters of a query: exact content, content
/// prefix, value prefix. Absent fields count as empty text.
pub open spec fn spec_post_filters(
    a: TrustAtomV,
    cf: Option<Seq<char>>,
    csw: Option<Seq<char>>,
    vsw: Option<Seq<char>>,
) -> bool {
    &&& match cf {
        Some(c) => a.content == Some(c),
        None => true,
    }
    &&& match csw {
        Some(c) => c.is_prefix_of(opt_chars(a.content)),
        None => true,
    }
    &&& match vsw {
        Some(v) => v.is_prefix_of(opt_chars(a.value)),
        None => true,
    }
}

/// The tag filter a query pushes down into the store: the direction's
/// tag start followed by the content prefix, if one was given.
pub open spec fn spec_query_filter(d: LinkDirection, csw: Option<Seq<char>>) -> Seq<char> {
    tag_start(d) + opt_chars(csw)
}

pub open spec fn spec_query_atoms(
    cands: Seq<Edge>,
    d: LinkDirection,
    base: u64,
    cf: Option<Seq<char>>,
    csw: Option<Seq<char>>,
    vsw: Option<Seq<char>>,
) -> Seq<TrustAtomV>
    decreases cands.len(),
{
    if cands.len() == 0 {
        Seq::empty()
    } else {
        let init = spec_query_atoms(cands.drop_last(), d, base, cf, csw, vsw);
        match spec_atom_of_edge(cands.last(), d, base) {
            Some(a) => if spec_post_filters(a, cf, csw, vsw) {
                init.push(a)
            } else {
                init
            },
            None => init,
        }
    }
}

/// One direction of a query: fetch the base's edges through the tag
/// filter, fail on the first undecodable candidate, and keep the atoms
/// passing the remaining filters, in store order.
pub open spec fn spec_query_dir(
    edges: Seq<Edge>,
    base: u64,
    d: LinkDirection,
    cf: Option<Seq<char>>,
    csw: Option<Seq<char>>,
    vsw: Option<Seq<char>>,
) -> Result<Seq<TrustAtomV>, TrustAtomError> {
    let cands = spec_list_edges(edges, base, Some(spec_query_filter(d, csw)));
    if all_edges_decodable(cands) {
        Ok(spec_query_atoms(cands, d, base, cf, csw, vsw))
    } else {
        Err(TrustAtomError::MalformedTag)
    }
}

/// The whole query: exactly one of source or target must be given;
/// a source queries forward edges, a target reverse edges.
pub open spec fn spec_query(
    edges: Seq<Edge>,
    source: Option<u64>,
    target: Option<u64>,
    cf: Option<Seq<char>>,
    csw: Option<Seq<char>>,
    vsw: Option<Seq<char>>,
) -> Result<Seq<TrustAtomV>, TrustAtomError> {
    match (source, target) {
        (Some(s), None) => spec_query_dir(edges, s, LinkDirection::Forward, cf, csw, vsw),
        (None, Some(t)) => spec_query_dir(edges, t, LinkDirection::Reverse, cf, csw, vsw),
        _ => Err(TrustAtomError::AmbiguousQuery),
    }
}

fn opt_content_eq(content: &Option<String>, cf: &Option<String>) -> (r: bool)
    ensures
        r == (match opt_str_view(*cf) {
            Some(c) => opt_str_view(*content) == Some(c),
            None => true,
        }),
{
    match cf {
        Some(y) => match content {
            Some(x) => x.eq(y),
            None => false,
        },
        None => true,
    }
}

fn opt_prefix_match(text: &Option<String>, p: &Option<String>) -> (r: bool)
    ensures
        r == (match opt_str_view(*p) {
            Some(c) => c.is_prefix_of(opt_chars(opt_str_view(*text))),
            None => true,
        }),
{
    match p {
        Some(c) => match text {
            Some(s) => str_starts_with(s.as_str(), c.as_str()),
            None => {
                let empty = c.as_str().unicode_len() == 0;
                proof {
                    if c@.len() == 0 {
                        assert(c@ =~= opt_chars(opt_str_view(*text)).subrange(0, 0));
                    }
                }
                empty
            },
        },
        None => true,
    }
}

/// Answer a filter query against one side of the graph. All filters
/// are additive. A query with both or neither of source and target
/// always yields `AmbiguousQuery`; one undecodable candidate edge
/// aborts the whole query with `MalformedTag`.
pub fn query(
    store: &Store,
    source: Option<u64>,
    target: Option<u64>,
    content_full: Option<String>,
    content_starts_with: Option<String>,
    value_starts_with: Option<String>,
) -> (r: Result<Vec<TrustAtom>, TrustAtomError>)
    ensures
        match r {
            Ok(v) => spec_query(
                store.edges@,
                source,
                target,
                opt_str_view(content_full),
                opt_str_view(content_starts_with),
                opt_str_view(value_starts_with),
            ) == Ok::<_, TrustAtomError>(atoms_view(v@)),
            Err(e) => spec_query(
                store.edges@,
                source,
                target,
                opt_str_view(content_full),
                opt_str_view(content_starts_with),
                opt_str_view(value_starts_with),
            ) == Err::<Seq<TrustAtomV>, _>(e),
        },
        ((source is Some && target is Some) || (source is None && target is None)) <==> (
        r matches Err(TrustAtomError::AmbiguousQuery)),
{
    let ghost cf = opt_str_view(content_full);
    let ghost csw = opt_str_view(content_starts_with);
    let ghost vsw = opt_str_view(value_starts_with);
    if source.is_some() && target.is_some() {
        return Err(TrustAtomError::AmbiguousQuery);
    }
    let (d, base): (LinkDirection, u64) = match source {
        Some(s) => (LinkDirection::Forward, s),
        None => match target {
            Some(t) => (LinkDirection::Reverse, t),
            None => {
                return Err(TrustAtomError::AmbiguousQuery);
            },
        },
    };
    proof {
        reveal_strlit("");
    }
    let filt = match &content_starts_with {
        Some(c) => link_tag(d, c.as_str()),
        None => link_tag(d, ""),
    };
    proof {
        assert(filt@ =~= spec_query_filter(d, csw));
    }
    let cands = store.list_edges(base, Some(filt.as_str()));
    let ghost cseq = spec_list_edges(store.edges@, base, Some(spec_query_filter(d, csw)));
    let mut out: Vec<TrustAtom> = Vec::new();
    let mut i: usize = 0;
    while i < cands.len()
        invariant
            0 <= i <= cands@.len(),
            cf == opt_str_view(content_full),
            csw == opt_str_view(content_starts_with),
            vsw == opt_str_view(value_starts_with),
            cseq == spec_list_edges(store.edges@, base, Some(spec_query_filter(d, csw))),
            (source == Some(base) && target is None && d == LinkDirection::Forward) || (
            source is None && target == Some(base) && d == LinkDirection::Reverse),
            cands@ == cseq,
            all_edges_decodable(cands@.take(i as int)),
            atoms_view(out@) == spec_query_atoms(cands@.take(i as int), d, base, cf, csw, vsw),
        decreases cands@.len() - i,
    {
        proof {
            assert(cands@.take(i + 1).drop_last() =~= cands@.take(i as int));
            assert(cands@.take(i + 1).last() == cands@[i as int]);
        }
        match convert_edge_to_trust_atom(&cands[i], d, base) {
            Ok(a) => {
                let keep_cf = opt_content_eq(&a.content, &content_full);
                let keep_csw = opt_prefix_match(&a.content, &content_starts_with);
                let keep_vsw = opt_prefix_match(&a.value, &value_starts_with);
                proof {
                    assert((keep_cf && keep_csw && keep_vsw) == spec_post_filters(
                        a@,
                        cf,
                        csw,
                        vsw,
                    ));
                }
                if keep_cf && keep_csw && keep_vsw {
                    proof {
                        assert(atoms_view(out@.push(a)) =~= atoms_view(out@).push(a@));
                    }
                    out.push(a);
                }
            },
            Err(err) => {
                proof {
                    assert(spec_decode(cands@[i as int].tag@) is None);
                    assert(!all_edges_decodable(cseq));
                }
                return Err(err);
            },
        }
        i += 1;
    }
    proof {
        assert(cands@.take(cands@.len() as int) =~= cands@);
        assert(all_edges_decodable(cseq));
    }
    Ok(out)
}

/// The query fixed to the locally authenticated agent as source.
pub fn query_mine(
    store: &Store,
    target: Option<u64>,
    content_full: Option<String>,
    content_starts_with: Option<String>,
    value_starts_with: Option<String>,
) -> (r: Result<Vec<TrustAtom>, TrustAtomError>)
    ensures
        match r {
            Ok(v) => spec_query(
                store.edges@,
                Some(store.local_agent),
                target,
                opt_str_view(content_full),
                opt_str_view(content_starts_with),
                opt_str_view(value_starts_with),
            ) == Ok::<_, TrustAtomError>(atoms_view(v@)),
            Err(e) => spec_query(
                store.edges@,
                Some(store.local_agent),
                target,
                opt_str_view(content_full),
                opt_str_view(content_starts_with),
                opt_str_view(value_starts_with),
            ) == Err::<Seq<TrustAtomV>, _>(e),
        },
{
    let me = store.local_agent_id();
    query(store, Some(me), target, content_full, content_starts_with, value_starts_with)
}

} // verus!

