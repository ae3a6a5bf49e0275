//! Rollup engine: synthesises, for every subject the local agent has
//! rated, one new "rollup" trust atom summarising the weighted
//! consensus of all known agents' ratings, blended with the local
//! agent's own rating.
//!
//! The computation has three stages. Agent discovery collects the
//! subjects the local agent has explicitly flagged as agent
//! identities. The silver stage gathers, per non-agent subject, every
//! known agent's latest qualifying rating together with the local
//! agent's strictly positive rating of that agent on the same topic.
//! The gold stage blends the retained ratings with golden-ratio
//! weighting and appends one rollup atom per qualifying subject. All
//! reads precede all writes, so a failed run leaves the store
//! untouched.

use vstd::prelude::*;

use crate::codec::{
    encode_tag, link_tag, spec_decode, spec_tag, LinkDirection, TagFields, TagFieldsV, dec_chars,
    opt_str_view, tag_start, u64_to_string,
};
use crate::rating::{
    blend_mean, blend_with_self, div_round, format_rating, parse_rating, pow_phi, round_div,
    spec_blend_mean, spec_blend_with_self, spec_format_rating, spec_parse_rating, spec_pow_phi,
    RATING_SCALE,
};
use crate::store::{
    edge_matches, fields_view, spec_extra_id, spec_list_edges, Edge, Extra, Store,
};
use crate::trust_atom::{
    atoms_view, clone_opt_string, query_mine, sat_inc, spec_query_dir, TrustAtom, TrustAtomV,
};
use crate::TrustAtomError;

verus! {

/// Per (subject, rating agent) aggregation state, alive for one rollup
/// computation: the agent's latest content and value on the subject,
/// and the local agent's rating of that agent on the same topic.
#[derive(Debug)]
pub struct RollupData {
    pub content: String,
    pub value: i64,
    pub agent_rating: i64,
}

pub struct RollupDataV {
    pub content: Seq<char>,
    pub value: i64,
    pub agent_rating: i64,
}

impl View for RollupData {
    type V = RollupDataV;

    open spec fn view(&self) -> RollupDataV {
        RollupDataV { content: self.content@, value: self.value, agent_rating: self.agent_rating }
    }
}

/// One retained contribution: a known agent and its rollup data.
#[derive(Debug)]
pub struct SilverEntry {
    pub agent: u64,
    pub data: RollupData,
}

pub struct SilverEntryV {
    pub agent: u64,
    pub data: RollupDataV,
}

impl View for SilverEntry {
    type V = SilverEntryV;

    open spec fn view(&self) -> SilverEntryV {
        SilverEntryV { agent: self.agent, data: self.data@ }
    }
}

/// One subject with all its retained contributions.
#[derive(Debug)]
pub struct SilverSubject {
    pub target: u64,
    pub entries: Vec<SilverEntry>,
}

pub struct SilverSubjectV {
    pub target: u64,
    pub entries: Seq<SilverEntryV>,
}

impl View for SilverSubject {
    type V = SilverSubjectV;

    open spec fn view(&self) -> SilverSubjectV {
        SilverSubjectV {
            target: self.target,
            entries: self.entries@.map_values(|e: SilverEntry| e@),
        }
    }
}

pub open spec fn silver_view(v: Seq<SilverSubject>) -> Seq<SilverSubjectV> {
    v.map_values(|s: SilverSubject| s@)
}

// ---------------------------------------------------------------------
// Latest-edge selection
// ---------------------------------------------------------------------

/// The latest edge from `base` to `target` through the tag filter:
/// the greatest timestamp wins, and among equal timestamps the edge
/// appended last.
pub open spec fn spec_latest(edges: Seq<Edge>, base: u64, target: u64, f: Option<Seq<char>>) -> Option<
    Edge,
>
    decreases edges.len(),
{
    if edges.len() == 0 {
        None
    } else {
        let init = spec_latest(edges.drop_last(), base, target, f);
        let e = edges.last();
        if edge_matches(e, base, f) && e.target == target {
            match init {
                Some(b) => if e.timestamp >= b.timestamp {
                    Some(e)
                } else {
                    Some(b)
                },
                None => Some(e),
            }
        } else {
            init
        }
    }
}

/// Latest selection law: `spec_latest` returns a candidate edge whose
/// timestamp is maximal among all candidates, and returns `None`
/// exactly when there is no candidate.
pub proof fn lemma_latest_is_max(edges: Seq<Edge>, base: u64, target: u64, f: Option<Seq<char>>)
    ensures
        match spec_latest(edges, base, target, f) {
            Some(e) => edges.contains(e) && edge_matches(e, base, f) && e.target == target
                && forall|i: int|
                0 <= i < edges.len() && edge_matches(#[trigger] edges[i], base, f)
                    && edges[i].target == target ==> edges[i].timestamp <= e.timestamp,
            None => forall|i: int|
                0 <= i < edges.len() ==> !(edge_matches(#[trigger] edges[i], base, f)
                    && edges[i].target == target),
        },
    decreases edges.len(),
{
    if edges.len() > 0 {
        let prefix = edges.drop_last();
        lemma_latest_is_max(prefix, base, target, f);
        assert(forall|i: int| 0 <= i < prefix.len() ==> prefix[i] == #[trigger] edges[i]);
        match spec_latest(edges, base, target, f) {
            Some(e) => {
                if edges.contains(e) {
                } else {
                    assert(prefix.contains(e) ==> exists|i: int|
                        0 <= i < prefix.len() && prefix[i] == e);
                    assert(edges.contains(e)) by {
                        if e == edges.last() {
                            assert(edges[edges.len() - 1] == e);
                        } else {
                            let i = choose|i: int| 0 <= i < prefix.len() && prefix[i] == e;
                            assert(edges[i] == e);
                        }
                    }
                }
            },
            None => {},
        }
    }
}

pub fn get_latest(store: &Store, base: u64, target: u64, tag_filter: Option<&str>) -> (r: Option<Edge>)
    ensures
        r == spec_latest(
            store.edges@,
            base,
            target,
            crate::store::opt_str_ref_view(tag_filter),
        ),
{
    let ghost fv = crate::store::opt_str_ref_view(tag_filter);
    let mut best: Option<Edge> = None;
    let mut i: usize = 0;
    while i < store.edges.len()
        invariant
            0 <= i <= store.edges@.len(),
            fv == crate::store::opt_str_ref_view(tag_filter),
            best == spec_latest(store.edges@.take(i as int), base, target, fv),
        decreases store.edges@.len() - i,
    {
        let e = &store.edges[i];
        proof {
            assert(store.edges@.take(i + 1).drop_last() =~= store.edges@.take(i as int));
            assert(store.edges@.take(i + 1).last() == store.edges@[i as int]);
        }
        let matches = e.target == target && e.base == base && match tag_filter {
            Some(p) => crate::codec::str_starts_with(e.tag.as_str(), p),
            None => true,
        };
        if matches {
            let replace = match &best {
                Some(b) => e.timestamp >= b.timestamp,
                None => true,
            };
            if replace {
                best = Some(e.clone());
            }
        }
        i += 1;
    }
    proof {
        assert(store.edges@.take(store.edges@.len() as int) =~= store.edges@);
    }
    best
}

// ---------------------------------------------------------------------
// Rating lookup
// ---------------------------------------------------------------------

/// The local agent's rating read off the latest matching edge:
/// absent when there is no edge or the edge carries no value; a value
/// that does not parse as a bounded rating is fatal.
pub open spec fn spec_rating(edges: Seq<Edge>, base: u64, target: u64, f: Option<Seq<char>>) -> Result<
    Option<i64>,
    TrustAtomError,
> {
    match spec_latest(edges, base, target, f) {
        None => Ok(None),
        Some(e) => match spec_decode(e.tag@) {
            None => Err(TrustAtomError::MalformedTag),
            Some(df) => match df.1.value {
                None => Ok(None),
                Some(vs) => match spec_parse_rating(vs) {
                    Some(v) => Ok(Some(v)),
                    None => Err(TrustAtomError::NumericParseFailure),
                },
            },
        },
    }
}

pub fn get_rating(store: &Store, base: u64, target: u64, tag_filter: Option<&str>) -> (r: Result<
    Option<i64>,
    TrustAtomError,
>)
    ensures
        r == spec_rating(
            store.edges@,
            base,
            target,
            crate::store::opt_str_ref_view(tag_filter),
        ),
        match r {
            Ok(Some(v)) => -RATING_SCALE <= v <= RATING_SCALE,
            _ => true,
        },
{
    match get_latest(store, base, target, tag_filter) {
        None => Ok(None),
        Some(e) => match crate::codec::decode_tag(e.tag.as_str()) {
            Err(err) => Err(err),
            Ok((_, f)) => match f.value {
                None => Ok(None),
                Some(vs) => match parse_rating(vs.as_str()) {
                    Ok(v) => Ok(Some(v)),
                    Err(err) => Err(err),
                },
            },
        },
    }
}

// ---------------------------------------------------------------------
// Agent discovery and subject collection
// ---------------------------------------------------------------------

fn vec_contains(v: &Vec<u64>, x: u64) -> (b: bool)
    ensures
        b == v@.contains(x),
{
    let mut i: usize = 0;
    while i < v.len()
        invariant
            0 <= i <= v@.len(),
            forall|j: int| 0 <= j < i ==> v@[j] != x,
        decreases v@.len() - i,
    {
        if v[i] == x {
            return true;
        }
        i += 1;
    }
    false
}

/// The known-agents set: targets of the local agent's atoms that carry
/// the agent-identity flag, first occurrence first.
pub open spec fn spec_agent_list(atoms: Seq<TrustAtomV>) -> Seq<u64>
    decreases atoms.len(),
{
    if atoms.len() == 0 {
        Seq::empty()
    } else {
        let init = spec_agent_list(atoms.drop_last());
        let a = atoms.last();
        if a.is_agent_identity && !init.contains(a.target) {
            init.push(a.target)
        } else {
            init
        }
    }
}

/// Scan the local agent's own atoms and collect the subjects flagged
/// as being agents themselves.
pub fn build_agent_list(atoms: &Vec<TrustAtom>) -> (r: Vec<u64>)
    ensures
        r@ == spec_agent_list(atoms_view(atoms@)),
{
    let mut r: Vec<u64> = Vec::new();
    let mut i: usize = 0;
    while i < atoms.len()
        invariant
            0 <= i <= atoms@.len(),
            r@ == spec_agent_list(atoms_view(atoms@.take(i as int))),
        decreases atoms@.len() - i,
    {
        proof {
            assert(atoms_view(atoms@.take(i + 1)).drop_last() =~= atoms_view(
                atoms@.take(i as int),
            ));
            assert(atoms_view(atoms@.take(i + 1)).last() == atoms@[i as int]@);
        }
        if atoms[i].is_agent_identity && !vec_contains(&r, atoms[i].target) {
            r.push(atoms[i].target);
        }
        i += 1;
    }
    proof {
        assert(atoms@.take(atoms@.len() as int) =~= atoms@);
    }
    r
}

/// The rollup subjects: targets of the local agent's atoms not flagged
/// as agent identities, first occurrence first.
pub open spec fn spec_rollup_targets(atoms: Seq<TrustAtomV>) -> Seq<u64>
    decreases atoms.len(),
{
    if atoms.len() == 0 {
        Seq::empty()
    } else {
        let init = spec_rollup_targets(atoms.drop_last());
        let a = atoms.last();
        if !a.is_agent_identity && !init.contains(a.target) {
            init.push(a.target)
        } else {
            init
        }
    }
}

fn build_rollup_targets(atoms: &Vec<TrustAtom>) -> (r: Vec<u64>)
    ensures
        r@ == spec_rollup_targets(atoms_view(atoms@)),
{
    let mut r: Vec<u64> = Vec::new();
    let mut i: usize = 0;
    while i < atoms.len()
        invariant
            0 <= i <= atoms@.len(),
            r@ == spec_rollup_targets(atoms_view(atoms@.take(i as int))),
        decreases atoms@.len() - i,
    {
        proof {
            assert(atoms_view(atoms@.take(i + 1)).drop_last() =~= atoms_view(
                atoms@.take(i as int),
            ));
            assert(atoms_view(atoms@.take(i + 1)).last() == atoms@[i as int]@);
        }
        if !atoms[i].is_agent_identity && !vec_contains(&r, atoms[i].target) {
            r.push(atoms[i].target);
        }
        i += 1;
    }
    proof {
        assert(atoms@.take(atoms@.len() as int) =~= atoms@);
    }
    r
}

/// The distinct edge targets of a candidate list, first occurrence
/// first: the agents with at least one backward edge into a subject.
pub open spec fn spec_distinct_targets(edges: Seq<Edge>) -> Seq<u64>
    decreases edges.len(),
{
    if edges.len() == 0 {
        Seq::empty()
    } else {
        let init = spec_distinct_targets(edges.drop_last());
        if !init.contains(edges.last().target) {
            init.push(edges.last().target)
        } else {
            init
        }
    }
}

fn distinct_targets(edges: &Vec<Edge>) -> (r: Vec<u64>)
    ensures
        r@ == spec_distinct_targets(edges@),
{
    let mut r: Vec<u64> = Vec::new();
    let mut i: usize = 0;
    while i < edges.len()
        invariant
            0 <= i <= edges@.len(),
            r@ == spec_distinct_targets(edges@.take(i as int)),
        decreases edges@.len() - i,
    {
        proof {
            assert(edges@.take(i + 1).drop_last() =~= edges@.take(i as int));
            assert(edges@.take(i + 1).last() == edges@[i as int]);
        }
        if !vec_contains(&r, edges[i].target) {
            r.push(edges[i].target);
        }
        i += 1;
    }
    proof {
        assert(edges@.take(edges@.len() as int) =~= edges@);
    }
    r
}

// ---------------------------------------------------------------------
// Silver stage
// ---------------------------------------------------------------------

/// One candidate agent on one subject: its latest backward edge must
/// decode; the entry is retained only if the atom carries both content
/// and value, the agent is known, and the local agent's own rating of
/// the agent on the same content is strictly positive.
pub open spec fn spec_silver_entry(
    edges: Seq<Edge>,
    me: u64,
    agents: Seq<u64>,
    t: u64,
    aid: u64,
) -> Result<Option<SilverEntryV>, TrustAtomError> {
    match spec_latest(edges, t, aid, Some(tag_start(LinkDirection::Reverse))) {
        None => Ok(None),
        Some(e) => match spec_decode(e.tag@) {
            None => Err(TrustAtomError::MalformedTag),
            Some(df) => if df.1.content is Some && df.1.value is Some && agents.contains(aid) {
                match spec_rating(
                    edges,
                    me,
                    aid,
                    Some(tag_start(LinkDirection::Forward) + df.1.content->0 + seq![crate::codec::TAG_SEPARATOR]),
                ) {
                    Err(er) => Err(er),
                    Ok(None) => Ok(None),
                    Ok(Some(rt)) => if rt > 0 {
                        match spec_parse_rating(df.1.value->0) {
                            None => Err(TrustAtomError::NumericParseFailure),
                            Some(v) => Ok(
                                Some(
                                    SilverEntryV {
                                        agent: aid,
                                        data: RollupDataV {
                                            content: df.1.content->0,
                                            value: v,
                                            agent_rating: rt,
                                        },
                                    },
                                ),
                            ),
                        }
                    } else {
                        Ok(None)
                    },
                }
            } else {
                Ok(None)
            },
        },
    }
}

pub open spec fn spec_silver_entries(
    edges: Seq<Edge>,
    me: u64,
    agents: Seq<u64>,
    t: u64,
    aids: Seq<u64>,
) -> Result<Seq<SilverEntryV>, TrustAtomError>
    decreases aids.len(),
{
    if aids.len() == 0 {
        Ok(Seq::empty())
    } else {
        match spec_silver_entries(edges, me, agents, t, aids.drop_last()) {
            Err(e) => Err(e),
            Ok(init) => match spec_silver_entry(edges, me, agents, t, aids.last()) {
                Err(e) => Err(e),
                Ok(None) => Ok(init),
                Ok(Some(en)) => Ok(init.push(en)),
            },
        }
    }
}

/// The retained contributions of one subject: its backward edges,
/// grouped by agent, latest edge each, gated as above.
pub open spec fn spec_silver_subject(edges: Seq<Edge>, me: u64, agents: Seq<u64>, t: u64) -> Result<
    Seq<SilverEntryV>,
    TrustAtomError,
> {
    let cands = spec_list_edges(edges, t, Some(tag_start(LinkDirection::Reverse)));
    spec_silver_entries(edges, me, agents, t, spec_distinct_targets(cands))
}

/// The whole silver stage over the subject list; subjects that are
/// themselves known agents are passed over.
pub open spec fn spec_silver(edges: Seq<Edge>, me: u64, agents: Seq<u64>, targets: Seq<u64>) -> Result<
    Seq<SilverSubjectV>,
    TrustAtomError,
>
    decreases targets.len(),
{
    if targets.len() == 0 {
        Ok(Seq::empty())
    } else {
        match spec_silver(edges, me, agents, targets.drop_last()) {
            Err(e) => Err(e),
            Ok(init) => {
                let t = targets.last();
                if agents.contains(t) {
                    Ok(init)
                } else {
                    match spec_silver_subject(edges, me, agents, t) {
                        Err(e) => Err(e),
                        Ok(es) => Ok(init.push(SilverSubjectV { target: t, entries: es })),
                    }
                }
            },
        }
    }
}

/// Positive-rating gate law: every contribution the silver stage
/// retains carries a strictly positive, in-range agent rating, an
/// in-range value, and an agent from the known-agents set; and no
/// retained subject is itself a known agent.
pub proof fn lemma_silver_gate(edges: Seq<Edge>, me: u64, agents: Seq<u64>, targets: Seq<u64>)
    ensures
        match spec_silver(edges, me, agents, targets) {
            Ok(ss) => forall|i: int, j: int|
                0 <= i < ss.len() && 0 <= j < ss[i].entries.len() ==> {
                    &&& 0 < (#[trigger] ss[i].entries[j]).data.agent_rating <= RATING_SCALE
                    &&& -RATING_SCALE <= ss[i].entries[j].data.value <= RATING_SCALE
                    &&& agents.contains(ss[i].entries[j].agent)
                    &&& !agents.contains(ss[i].target)
                },
            Err(_) => true,
        },
    decreases targets.len(),
{
    if targets.len() > 0 {
        lemma_silver_gate(edges, me, agents, targets.drop_last());
        match spec_silver(edges, me, agents, targets.drop_last()) {
            Err(_) => {},
            Ok(init) => {
                let t = targets.last();
                if !agents.contains(t) {
                    match spec_silver_subject(edges, me, agents, t) {
                        Err(_) => {},
                        Ok(es) => {
                            let cands = spec_list_edges(
                                edges,
                                t,
                                Some(tag_start(LinkDirection::Reverse)),
                            );
                            lemma_silver_entries_gate(
                                edges,
                                me,
                                agents,
                                t,
                                spec_distinct_targets(cands),
                            );
                        },
                    }
                }
            },
        }
    }
}

pub proof fn lemma_silver_entries_gate(
    edges: Seq<Edge>,
    me: u64,
    agents: Seq<u64>,
    t: u64,
    aids: Seq<u64>,
)
    ensures
        match spec_silver_entries(edges, me, agents, t, aids) {
            Ok(es) => forall|j: int|
                0 <= j < es.len() ==> {
                    &&& 0 < (#[trigger] es[j]).data.agent_rating <= RATING_SCALE
                    &&& -RATING_SCALE <= es[j].data.value <= RATING_SCALE
                    &&& agents.contains(es[j].agent)
                },
            Err(_) => true,
        },
    decreases aids.len(),
{
    if aids.len() > 0 {
        lemma_silver_entries_gate(edges, me, agents, t, aids.drop_last());
        match spec_silver_entries(edges, me, agents, t, aids.drop_last()) {
            Err(_) => {},
            Ok(init) => {
                match spec_silver_entry(edges, me, agents, t, aids.last()) {
                    Err(_) => {},
                    Ok(None) => {},
                    Ok(Some(en)) => {
                        lemma_entry_bounds(edges, me, agents, t, aids.last());
                    },
                }
            },
        }
    }
}

proof fn lemma_entry_bounds(edges: Seq<Edge>, me: u64, agents: Seq<u64>, t: u64, aid: u64)
    ensures
        match spec_silver_entry(edges, me, agents, t, aid) {
            Ok(Some(en)) => 0 < en.data.agent_rating <= RATING_SCALE && -RATING_SCALE
                <= en.data.value <= RATING_SCALE && agents.contains(en.agent),
            _ => true,
        },
{
    match spec_latest(edges, t, aid, Some(tag_start(LinkDirection::Reverse))) {
        None => {},
        Some(e) => match spec_decode(e.tag@) {
            None => {},
            Some(df) => {
                if df.1.content is Some && df.1.value is Some && agents.contains(aid) {
                    match spec_rating(
                        edges,
                        me,
                        aid,
                        Some(tag_start(LinkDirection::Forward) + df.1.content->0 + seq![crate::codec::TAG_SEPARATOR]),
                    ) {
                        Err(_) => {},
                        Ok(None) => {},
                        Ok(Some(rt)) => {
                            lemma_rating_bounds(
                                edges,
                                me,
                                aid,
                                Some(tag_start(LinkDirection::Forward) + df.1.content->0 + seq![crate::codec::TAG_SEPARATOR]),
                            );
                            if rt > 0 {
                                match spec_parse_rating(df.1.value->0) {
                                    None => {},
                                    Some(v) => {
                                        crate::rating::lemma_parse_rating_bounds(df.1.value->0);
                                    },
                                }
                            }
                        },
                    }
                }
            },
        },
    }
}

/// Any rating the spec-level lookup yields lies in the bounded range.
pub proof fn lemma_rating_bounds(edges: Seq<Edge>, base: u64, target: u64, f: Option<Seq<char>>)
    ensures
        match spec_rating(edges, base, target, f) {
            Ok(Some(v)) => -RATING_SCALE <= v <= RATING_SCALE,
            _ => true,
        },
{
    match spec_latest(edges, base, target, f) {
        None => {},
        Some(e) => match spec_decode(e.tag@) {
            None => {},
            Some(df) => match df.1.value {
                None => {},
                Some(vs) => {
                    crate::rating::lemma_parse_rating_bounds(vs);
                },
            },
        },
    }
}

proof fn lemma_silver_err_extends(
    edges: Seq<Edge>,
    me: u64,
    agents: Seq<u64>,
    targets: Seq<u64>,
    i: int,
)
    requires
        0 <= i <= targets.len(),
        spec_silver(edges, me, agents, targets.take(i)) is Err,
    ensures
        spec_silver(edges, me, agents, targets) == spec_silver(edges, me, agents, targets.take(i)),
    decreases targets.len(),
{
    if i == targets.len() {
        assert(targets.take(i) =~= targets);
    } else {
        let p = targets.drop_last();
        assert(p.take(i) =~= targets.take(i));
        lemma_silver_err_extends(edges, me, agents, p, i);
    }
}

proof fn lemma_entries_err_extends(
    edges: Seq<Edge>,
    me: u64,
    agents: Seq<u64>,
    t: u64,
    aids: Seq<u64>,
    i: int,
)
    requires
        0 <= i <= aids.len(),
        spec_silver_entries(edges, me, agents, t, aids.take(i)) is Err,
    ensures
        spec_silver_entries(edges, me, agents, t, aids) == spec_silver_entries(
            edges,
            me,
            agents,
            t,
            aids.take(i),
        ),
    decreases aids.len(),
{
    if i == aids.len() {
        assert(aids.take(i) =~= aids);
    } else {
        let p = aids.drop_last();
        assert(p.take(i) =~= aids.take(i));
        lemma_entries_err_extends(edges, me, agents, t, p, i);
    }
}

/// Per-subject collection: for every subject of the local agent's
/// non-agent atoms that is not itself a known agent, gather each
/// distinct agent's latest backward edge and retain it under the
/// positive-rating gate. Subjects are visited in first-appearance
/// order of the local agent's own atoms — the store-native iteration
/// order of this model — and agents in first-appearance order of the
/// subject's backward edges. Pure reads; any malformed tag or
/// unparseable stored rating aborts the whole stage.
pub fn build_rollup_silver(
    store: &Store,
    me: u64,
    atoms: &Vec<TrustAtom>,
    agents: &Vec<u64>,
) -> (r: Result<Vec<SilverSubject>, TrustAtomError>)
    ensures
        match r {
            Ok(v) => spec_silver(
                store.edges@,
                me,
                agents@,
                spec_rollup_targets(atoms_view(atoms@)),
            ) == Ok::<_, TrustAtomError>(silver_view(v@)),
            Err(e) => spec_silver(
                store.edges@,
                me,
                agents@,
                spec_rollup_targets(atoms_view(atoms@)),
            ) == Err::<Seq<SilverSubjectV>, _>(e),
        },
{
    let targets = build_rollup_targets(atoms);
    let mut out: Vec<SilverSubject> = Vec::new();
    let mut i: usize = 0;
    proof {
        assert(targets@.take(0) =~= Seq::<u64>::empty());
        assert(silver_view(out@) =~= Seq::<SilverSubjectV>::empty());
    }
    while i < targets.len()
        invariant
            0 <= i <= targets@.len(),
            targets@ == spec_rollup_targets(atoms_view(atoms@)),
            spec_silver(store.edges@, me, agents@, targets@.take(i as int)) == Ok::<
                _,
                TrustAtomError,
            >(silver_view(out@)),
        decreases targets@.len() - i,
    {
        let t = targets[i];
        proof {
            assert(targets@.take(i + 1).drop_last() =~= targets@.take(i as int));
            assert(targets@.take(i + 1).last() == targets@[i as int]);
        }
        if !vec_contains(agents, t) {
            match build_silver_subject(store, me, agents, t) {
                Ok(entries) => {
                    let sub = SilverSubject { target: t, entries };
                    proof {
                        assert(silver_view(out@.push(sub)) =~= silver_view(out@).push(sub@));
                    }
                    out.push(sub);
                },
                Err(e) => {
                    proof {
                        lemma_silver_err_extends(
                            store.edges@,
                            me,
                            agents@,
                            targets@,
                            i + 1,
                        );
                    }
                    return Err(e);
                },
            }
        }
        i += 1;
    }
    proof {
        assert(targets@.take(targets@.len() as int) =~= targets@);
    }
    Ok(out)
}

fn build_silver_subject(store: &Store, me: u64, agents: &Vec<u64>, t: u64) -> (r: Result<
    Vec<SilverEntry>,
    TrustAtomError,
>)
    ensures
        match r {
            Ok(v) => spec_silver_subject(store.edges@, me, agents@, t) == Ok::<
                _,
                TrustAtomError,
            >(v@.map_values(|e: SilverEntry| e@)),
            Err(e) => spec_silver_subject(store.edges@, me, agents@, t) == Err::<
                Seq<SilverEntryV>,
                _,
            >(e),
        },
{
    let reverse_filter = link_tag(LinkDirection::Reverse, "");
    proof {
        reveal_strlit("");
        assert(reverse_filter@ =~= tag_start(LinkDirection::Reverse));
    }
    let cands = store.list_edges(t, Some(reverse_filter.as_str()));
    let aids = distinct_targets(&cands);
    let ghost aseq = spec_distinct_targets(
        spec_list_edges(store.edges@, t, Some(tag_start(LinkDirection::Reverse))),
    );
    let mut out: Vec<SilverEntry> = Vec::new();
    let mut j: usize = 0;
    proof {
        assert(aids@.take(0) =~= Seq::<u64>::empty());
        assert(out@.map_values(|e: SilverEntry| e@) =~= Seq::<SilverEntryV>::empty());
    }
    while j < aids.len()
        invariant
            0 <= j <= aids@.len(),
            aids@ == aseq,
            aseq == spec_distinct_targets(
                spec_list_edges(store.edges@, t, Some(tag_start(LinkDirection::Reverse))),
            ),
            spec_silver_entries(store.edges@, me, agents@, t, aids@.take(j as int)) == Ok::<
                _,
                TrustAtomError,
            >(out@.map_values(|e: SilverEntry| e@)),
        decreases aids@.len() - j,
    {
        proof {
            assert(aids@.take(j + 1).drop_last() =~= aids@.take(j as int));
            assert(aids@.take(j + 1).last() == aids@[j as int]);
        }
        match build_silver_entry(store, me, agents, t, aids[j]) {
            Ok(Some(en)) => {
                proof {
                    assert((out@.push(en)).map_values(|e: SilverEntry| e@) =~= out@.map_values(
                        |e: SilverEntry| e@,
                    ).push(en@));
                }
                out.push(en);
            },
            Ok(None) => {},
            Err(e) => {
                proof {
                    lemma_entries_err_extends(store.edges@, me, agents@, t, aids@, j + 1);
                }
                return Err(e);
            },
        }
        j += 1;
    }
    proof {
        assert(aids@.take(aids@.len() as int) =~= aids@);
    }
    Ok(out)
}

fn build_silver_entry(store: &Store, me: u64, agents: &Vec<u64>, t: u64, aid: u64) -> (r: Result<
    Option<SilverEntry>,
    TrustAtomError,
>)
    ensures
        match r {
            Ok(Some(en)) => spec_silver_entry(store.edges@, me, agents@, t, aid) == Ok::<
                _,
                TrustAtomError,
            >(Some(en@)),
            Ok(None) => spec_silver_entry(store.edges@, me, agents@, t, aid) == Ok::<
                Option<SilverEntryV>,
                TrustAtomError,
            >(None),
            Err(e) => spec_silver_entry(store.edges@, me, agents@, t, aid) == Err::<
                Option<SilverEntryV>,
                _,
            >(e),
        },
{
    let reverse_filter = link_tag(LinkDirection::Reverse, "");
    proof {
        reveal_strlit("");
        assert(reverse_filter@ =~= tag_start(LinkDirection::Reverse));
    }
    let latest = match get_latest(store, t, aid, Some(reverse_filter.as_str())) {
        Some(e) => e,
        None => {
            return Ok(None);
        },
    };
    let (_, f) = match crate::codec::decode_tag(latest.tag.as_str()) {
        Ok(df) => df,
        Err(e) => {
            return Err(e);
        },
    };
    let content = match f.content {
        Some(c) => c,
        None => {
            return Ok(None);
        },
    };
    let value = match f.value {
        Some(v) => v,
        None => {
            return Ok(None);
        },
    };
    if !vec_contains(agents, aid) {
        return Ok(None);
    }
    let mut content_filter = link_tag(LinkDirection::Forward, content.as_str());
    proof {
        reveal_strlit("\u{0}");
    }
    content_filter.append("\u{0}");
    proof {
        assert(content_filter@ =~= tag_start(LinkDirection::Forward) + content@ + seq![
            crate::codec::TAG_SEPARATOR,
        ]);
    }
    let rt = match get_rating(store, me, aid, Some(content_filter.as_str())) {
        Ok(Some(rt)) => rt,
        Ok(None) => {
            return Ok(None);
        },
        Err(e) => {
            return Err(e);
        },
    };
    if rt <= 0 {
        return Ok(None);
    }
    let v = match parse_rating(value.as_str()) {
        Ok(v) => v,
        Err(e) => {
            return Err(e);
        },
    };
    Ok(Some(SilverEntry { agent: aid, data: RollupData { content, value: v, agent_rating: rt } }))
}

// ---------------------------------------------------------------------
// Gold stage
// ---------------------------------------------------------------------

/// Sum of the golden-ratio powers of the retained agent ratings.
pub open spec fn spec_phi_sum(es: Seq<SilverEntryV>) -> int
    decreases es.len(),
{
    if es.len() == 0 {
        0
    } else {
        spec_phi_sum(es.drop_last()) + spec_pow_phi(es.last().data.agent_rating as nat)
    }
}

/// Sum of the normalized weighted contributions: each agent's value,
/// weighted by its trust power over the power sum, rounded to the
/// nearest billionth.
pub open spec fn spec_weighted_sum(es: Seq<SilverEntryV>, phi_sum: int) -> int
    decreases es.len(),
{
    if es.len() == 0 {
        0
    } else {
        spec_weighted_sum(es.drop_last(), phi_sum) + round_div(
            spec_pow_phi(es.last().data.agent_rating as nat) * es.last().data.value,
            phi_sum,
        )
    }
}

/// The provenance pairs of one subject: each contributing agent's
/// (source-id, target-id) in decimal text, for agents whose latest
/// forward edge onto the subject exists.
pub open spec fn spec_provenance(edges: Seq<Edge>, t: u64, es: Seq<SilverEntryV>) -> Seq<
    (Seq<char>, Seq<char>),
>
    decreases es.len(),
{
    if es.len() == 0 {
        Seq::empty()
    } else {
        spec_provenance(edges, t, es.drop_last()) + (match spec_latest(
            edges,
            es.last().agent,
            t,
            Some(tag_start(LinkDirection::Forward)),
        ) {
            Some(_) => seq![(dec_chars(es.last().agent as nat), dec_chars(t as nat))],
            None => Seq::<(Seq<char>, Seq<char>)>::empty(),
        })
    }
}

/// The local agent's own latest rating and content label on a
/// subject, read off its latest forward edge.
pub open spec fn spec_my_latest(edges: Seq<Edge>, me: u64, t: u64) -> Result<
    (Option<i64>, Option<Seq<char>>),
    TrustAtomError,
> {
    match spec_latest(edges, me, t, Some(tag_start(LinkDirection::Forward))) {
        None => Ok((None, None)),
        Some(e) => match spec_decode(e.tag@) {
            None => Err(TrustAtomError::MalformedTag),
            Some(df) => match df.1.value {
                None => Ok((None, df.1.content)),
                Some(vs) => match spec_parse_rating(vs) {
                    Some(v) => Ok((Some(v), df.1.content)),
                    None => Err(TrustAtomError::NumericParseFailure),
                },
            },
        },
    }
}

/// One planned rollup atom with the provenance payload behind its
/// extra reference.
pub struct GoldItemV {
    pub atom: TrustAtomV,
    pub prov: Option<Seq<(Seq<char>, Seq<char>)>>,
}

/// The rollup atom of one subject, if any: subjects with no retained
/// contribution are skipped, as are subjects whose contributions all
/// round to zero golden-ratio weight (ratings at the very bottom of
/// the scale), since the weight normalization would otherwise divide
/// by zero; with an own rating the value blends 80/20, without one it
/// is the mean of the weighted contributions.
pub open spec fn spec_gold_item(edges: Seq<Edge>, me: u64, s: SilverSubjectV) -> Result<
    Option<GoldItemV>,
    TrustAtomError,
> {
    let es = s.entries;
    let t = s.target;
    if es.len() == 0 {
        Ok(None)
    } else {
        let phi_sum = spec_phi_sum(es);
        if phi_sum <= 0 {
            Ok(None)
        } else {
            match spec_my_latest(edges, me, t) {
                Err(e) => Err(e),
                Ok(mc) => {
                    let ws = spec_weighted_sum(es, phi_sum);
                    let prov = spec_provenance(edges, t, es);
                    let eid = if prov.len() > 0 {
                        Some(spec_extra_id(prov))
                    } else {
                        None
                    };
                    let val = match mc.0 {
                        Some(my) => spec_blend_with_self(my as int, ws),
                        None => spec_blend_mean(ws, es.len() as int),
                    };
                    Ok(
                        Some(
                            GoldItemV {
                                atom: TrustAtomV {
                                    source: me,
                                    target: t,
                                    prefix: Some("rollup"@),
                                    content: mc.1,
                                    value: Some(spec_format_rating(val)),
                                    extra: eid,
                                    is_agent_identity: false,
                                },
                                prov: if prov.len() > 0 {
                                    Some(prov)
                                } else {
                                    None
                                },
                            },
                        ),
                    )
                },
            }
        }
    }
}

pub open spec fn spec_gold_items(edges: Seq<Edge>, me: u64, sv: Seq<SilverSubjectV>) -> Result<
    Seq<GoldItemV>,
    TrustAtomError,
>
    decreases sv.len(),
{
    if sv.len() == 0 {
        Ok(Seq::empty())
    } else {
        match spec_gold_items(edges, me, sv.drop_last()) {
            Err(e) => Err(e),
            Ok(init) => match spec_gold_item(edges, me, sv.last()) {
                Err(e) => Err(e),
                Ok(None) => Ok(init),
                Ok(Some(it)) => Ok(init.push(it)),
            },
        }
    }
}

pub open spec fn spec_gold_atom_list(items: Seq<GoldItemV>) -> Seq<TrustAtomV> {
    items.map_values(|it: GoldItemV| it.atom)
}

/// The store clock after `n` ticks.
pub open spec fn ts_after(t: u64, n: nat) -> u64
    decreases n,
{
    if n == 0 {
        t
    } else {
        sat_inc(ts_after(t, (n - 1) as nat))
    }
}

/// The tag fields a rollup atom is encoded with.
pub open spec fn gold_fields(a: TrustAtomV) -> TagFieldsV {
    TagFieldsV {
        content: a.content,
        value: a.value,
        prefix: a.prefix,
        extra: a.extra,
        agent_identity: false,
    }
}

/// The data invariant the silver stage guarantees and the gold stage
/// relies on: every retained rating is strictly positive and in
/// range, every value in range.
pub open spec fn silver_bounded(sv: Seq<SilverSubjectV>) -> bool {
    forall|i: int, j: int|
        0 <= i < sv.len() && 0 <= j < sv[i].entries.len() ==> {
            &&& 0 < (#[trigger] sv[i].entries[j]).data.agent_rating <= RATING_SCALE
            &&& -RATING_SCALE <= sv[i].entries[j].data.value <= RATING_SCALE
        }
}

proof fn lemma_phi_sum_props(es: Seq<SilverEntryV>)
    ensures
        0 <= spec_phi_sum(es),
        forall|j: int|
            0 <= j < es.len() ==> spec_pow_phi(
                (#[trigger] es[j]).data.agent_rating as nat,
            ) <= spec_phi_sum(es),
    decreases es.len(),
{
    if es.len() > 0 {
        let p = es.drop_last();
        lemma_phi_sum_props(p);
        assert(forall|j: int| 0 <= j < p.len() ==> p[j] == #[trigger] es[j]);
    }
}

proof fn lemma_gold_err_extends(edges: Seq<Edge>, me: u64, sv: Seq<SilverSubjectV>, i: int)
    requires
        0 <= i <= sv.len(),
        spec_gold_items(edges, me, sv.take(i)) is Err,
    ensures
        spec_gold_items(edges, me, sv) == spec_gold_items(edges, me, sv.take(i)),
    decreases sv.len(),
{
    if i == sv.len() {
        assert(sv.take(i) =~= sv);
    } else {
        let p = sv.drop_last();
        assert(p.take(i) =~= sv.take(i));
        lemma_gold_err_extends(edges, me, p, i);
    }
}

/// One planned rollup write, precomputed during the read phase.
struct GoldPlan {
    target: u64,
    content: Option<String>,
    value: i64,
    prov: Option<Extra>,
    extra_id: Option<u64>,
}

/// The executable plan item carries exactly the planned atom.
spec fn plan_matches(p: GoldPlan, me: u64, it: GoldItemV) -> bool {
    &&& it.atom.source == me
    &&& it.atom.target == p.target
    &&& it.atom.prefix == Some("rollup"@)
    &&& it.atom.content == opt_str_view(p.content)
    &&& it.atom.value == Some(spec_format_rating(p.value as int))
    &&& it.atom.extra == p.extra_id
    &&& !it.atom.is_agent_identity
    &&& -RATING_SCALE <= p.value <= RATING_SCALE
    &&& match p.prov {
        Some(x) => it.prov == Some(fields_view(x.fields@)) && p.extra_id == Some(
            spec_extra_id(fields_view(x.fields@)),
        ),
        None => it.prov is None && p.extra_id is None,
    }
}

fn plan_gold_item(store: &Store, s: &SilverSubject, me: u64) -> (r: Result<
    Option<GoldPlan>,
    TrustAtomError,
>)
    requires
        forall|j: int|
            0 <= j < s.entries@.len() ==> {
                &&& 0 < (#[trigger] s.entries@[j]).data.agent_rating <= RATING_SCALE
                &&& -RATING_SCALE <= s.entries@[j].data.value <= RATING_SCALE
            },
    ensures
        match r {
            Ok(Some(p)) => match spec_gold_item(store.edges@, me, s@) {
                Ok(Some(it)) => plan_matches(p, me, it),
                _ => false,
            },
            Ok(None) => spec_gold_item(store.edges@, me, s@) == Ok::<
                Option<GoldItemV>,
                TrustAtomError,
            >(None),
            Err(e) => spec_gold_item(store.edges@, me, s@) == Err::<Option<GoldItemV>, _>(e),
        },
{
    let t = s.target;
    let ghost es = s@.entries;
    proof {
        assert(forall|j: int| 0 <= j < es.len() ==> es[j] == (#[trigger] s.entries@[j])@);
    }
    let n = s.entries.len();
    if n == 0 {
        return Ok(None);
    }
    // power sum
    let mut phi: i128 = 0;
    let mut j: usize = 0;
    proof {
        assert(es.take(0) =~= Seq::<SilverEntryV>::empty());
    }
    while j < n
        invariant
            0 <= j <= n,
            n == s.entries@.len(),
            es == s@.entries,
            forall|j2: int|
                0 <= j2 < s.entries@.len() ==> {
                    &&& 0 < (#[trigger] s.entries@[j2]).data.agent_rating <= RATING_SCALE
                    &&& -RATING_SCALE <= s.entries@[j2].data.value <= RATING_SCALE
                },
            phi == spec_phi_sum(es.take(j as int)),
            0 <= phi <= (j as int) * 1_000_000_000,
        decreases n - j,
    {
        let rt = s.entries[j].data.agent_rating;
        let p = pow_phi(rt as u64);
        proof {
            assert(es.take(j + 1).drop_last() =~= es.take(j as int));
            assert(es.take(j + 1).last() == es[j as int]);
        }
        phi = phi + (p as i128);
        j += 1;
    }
    proof {
        assert(es.take(n as int) =~= es);
        lemma_phi_sum_props(es);
    }
    if phi == 0 {
        return Ok(None);
    }
    let ghost phi_sum = spec_phi_sum(es);
    proof {
        assert(n as int <= 0xFFFFFFFFFFFFFFFF);
        assert((n as int) * 1_000_000_000 <= crate::rating::AGG_BOUND) by (nonlinear_arith)
            requires
                0 <= n as int <= 0xFFFFFFFFFFFFFFFF,
        ;
    }
    // weighted contributions
    let mut ws: i128 = 0;
    let mut j: usize = 0;
    proof {
        assert(es.take(0) =~= Seq::<SilverEntryV>::empty());
    }
    while j < n
        invariant
            0 <= j <= n,
            n == s.entries@.len(),
            es == s@.entries,
            forall|j2: int|
                0 <= j2 < s.entries@.len() ==> {
                    &&& 0 < (#[trigger] s.entries@[j2]).data.agent_rating <= RATING_SCALE
                    &&& -RATING_SCALE <= s.entries@[j2].data.value <= RATING_SCALE
                },
            0 < phi_sum <= crate::rating::AGG_BOUND,
            phi_sum == spec_phi_sum(es),
            forall|j2: int|
                0 <= j2 < es.len() ==> spec_pow_phi(
                    (#[trigger] es[j2]).data.agent_rating as nat,
                ) <= phi_sum,
            phi == phi_sum,
            0 < phi_sum <= crate::rating::AGG_BOUND,
            ws == spec_weighted_sum(es.take(j as int), phi_sum),
            -((j as int) * 1_000_000_000) <= ws <= (j as int) * 1_000_000_000,
        decreases n - j,
    {
        let rt = s.entries[j].data.agent_rating;
        let v = s.entries[j].data.value;
        let p = pow_phi(rt as u64);
        proof {
            assert(es[j as int] == s.entries@[j as int]@);
            assert((p as int) * (v as int) <= 1_000_000_000_000_000_000 && (p as int) * (
            v as int) >= -1_000_000_000_000_000_000) by (nonlinear_arith)
                requires
                    0 <= p <= 1_000_000_000,
                    -1_000_000_000 <= v <= 1_000_000_000,
            ;
        }
        let num: i128 = (p as i128) * (v as i128);
        proof {
            assert(spec_pow_phi(es[j as int].data.agent_rating as nat) == p);
            assert(-(phi_sum * 1_000_000_000) <= num <= phi_sum * 1_000_000_000)
                by (nonlinear_arith)
                requires
                    0 <= p as int <= phi_sum,
                    -1_000_000_000 <= v as int <= 1_000_000_000,
                    num == (p as i128) * (v as i128),
            ;
            crate::rating::lemma_round_div_scaled(num as int, phi_sum, 1_000_000_000);
            assert(es.take(j + 1).drop_last() =~= es.take(j as int));
            assert(es.take(j + 1).last() == es[j as int]);
        }
        let c = div_round(num, phi);
        ws = ws + c;
        j += 1;
    }
    proof {
        assert(es.take(n as int) =~= es);
    }
    // provenance
    proof {
        reveal_strlit("");
    }
    let forward_filter = link_tag(LinkDirection::Forward, "");
    proof {
        assert(forward_filter@ =~= tag_start(LinkDirection::Forward));
    }
    let mut prov_fields: Vec<(String, String)> = Vec::new();
    let mut j: usize = 0;
    proof {
        assert(es.take(0) =~= Seq::<SilverEntryV>::empty());
        assert(fields_view(prov_fields@) =~= Seq::<(Seq<char>, Seq<char>)>::empty());
    }
    while j < n
        invariant
            0 <= j <= n,
            n == s.entries@.len(),
            es == s@.entries,
            forward_filter@ == tag_start(LinkDirection::Forward),
            t == s.target,
            fields_view(prov_fields@) == spec_provenance(store.edges@, t, es.take(j as int)),
        decreases n - j,
    {
        proof {
            assert(es.take(j + 1).drop_last() =~= es.take(j as int));
            assert(es.take(j + 1).last() == es[j as int]);
            assert(es[j as int].agent == s.entries@[j as int].agent);
        }
        match get_latest(store, s.entries[j].agent, t, Some(forward_filter.as_str())) {
            Some(_) => {
                let key = u64_to_string(s.entries[j].agent);
                let val = u64_to_string(t);
                proof {
                    assert(fields_view(prov_fields@.push((key, val))) =~= fields_view(
                        prov_fields@,
                    ).push((key@, val@)));
                }
                prov_fields.push((key, val));
            },
            None => {},
        }
        j += 1;
    }
    proof {
        assert(es.take(n as int) =~= es);
    }
    let (prov, extra_id): (Option<Extra>, Option<u64>) = if prov_fields.len() > 0 {
        let x = Extra { fields: prov_fields };
        let id = crate::store::calc_extra_hash(&x);
        (Some(x), Some(id))
    } else {
        (None, None)
    };
    // own rating and content label
    let (my_rating, content): (Option<i64>, Option<String>) = match get_latest(
        store,
        me,
        t,
        Some(forward_filter.as_str()),
    ) {
        None => (None, None),
        Some(e) => match crate::codec::decode_tag(e.tag.as_str()) {
            Err(err) => {
                return Err(err);
            },
            Ok((_, f)) => match f.value {
                None => (None, f.content),
                Some(vs) => match parse_rating(vs.as_str()) {
                    Ok(v) => (Some(v), f.content),
                    Err(err) => {
                        return Err(err);
                    },
                },
            },
        },
    };
    let val: i64 = match my_rating {
        Some(my) => blend_with_self(my, ws),
        None => blend_mean(ws, n),
    };
    Ok(Some(GoldPlan { target: t, content, value: val, prov, extra_id }))
}

fn plan_rollup_gold(store: &Store, sv: &Vec<SilverSubject>, me: u64) -> (r: Result<
    Vec<GoldPlan>,
    TrustAtomError,
>)
    requires
        silver_bounded(silver_view(sv@)),
    ensures
        match r {
            Ok(plan) => match spec_gold_items(store.edges@, me, silver_view(sv@)) {
                Ok(items) => plan@.len() == items.len() && forall|k: int|
                    0 <= k < items.len() ==> plan_matches(#[trigger] plan@[k], me, items[k]),
                Err(_) => false,
            },
            Err(e) => spec_gold_items(store.edges@, me, silver_view(sv@)) == Err::<
                Seq<GoldItemV>,
                _,
            >(e),
        },
{
    let ghost svv = silver_view(sv@);
    let mut plan: Vec<GoldPlan> = Vec::new();
    let mut i: usize = 0;
    proof {
        assert(svv.take(0) =~= Seq::<SilverSubjectV>::empty());
    }
    while i < sv.len()
        invariant
            0 <= i <= sv@.len(),
            svv == silver_view(sv@),
            silver_bounded(svv),
            spec_gold_items(store.edges@, me, svv.take(i as int)) matches Ok(items) && plan@.len()
                == items.len() && forall|k: int|
                0 <= k < items.len() ==> plan_matches(#[trigger] plan@[k], me, items[k]),
        decreases sv@.len() - i,
    {
        proof {
            assert(svv.take(i + 1).drop_last() =~= svv.take(i as int));
            assert(svv.take(i + 1).last() == svv[i as int]);
            assert(svv[i as int] == sv@[i as int]@);
            assert(forall|j: int|
                0 <= j < sv@[i as int].entries@.len() ==> (#[trigger] sv@[i as int].entries@[j])@
                    == svv[i as int].entries[j]);
        }
        match plan_gold_item(store, &sv[i], me) {
            Ok(Some(p)) => {
                plan.push(p);
            },
            Ok(None) => {},
            Err(e) => {
                proof {
                    lemma_gold_err_extends(store.edges@, me, svv, i + 1);
                }
                return Err(e);
            },
        }
        i += 1;
    }
    proof {
        assert(svv.take(sv@.len() as int) =~= svv);
    }
    Ok(plan)
}

/// Blending: append, for each planned subject, the provenance extra
/// record (idempotently) and the two edges of one rollup atom. All
/// writes happen after every read; the returned atoms are exactly the
/// planned ones, in subject order.
pub fn build_rollup_gold(store: &mut Store, rollup_silver: Vec<SilverSubject>, me: u64) -> (r:
    Result<Vec<TrustAtom>, TrustAtomError>)
    requires
        silver_bounded(silver_view(rollup_silver@)),
    ensures
        match r {
            Ok(v) => match spec_gold_items(
                old(store).edges@,
                me,
                silver_view(rollup_silver@),
            ) {
                Ok(items) => {
                    &&& atoms_view(v@) == spec_gold_atom_list(items)
                    &&& final(store).local_agent == old(store).local_agent
                    &&& final(store).edges@.len() == old(store).edges@.len() + 2 * items.len()
                    &&& (forall|k: int|
                        0 <= k < old(store).edges@.len() ==> final(store).edges@[k] == old(
                            store,
                        ).edges@[k])
                    &&& (forall|k: int|
                        0 <= k < items.len() ==> {
                            let fe = final(store).edges@[old(store).edges@.len() + 2 * k];
                            let be = final(store).edges@[old(store).edges@.len() + 2 * k + 1];
                            &&& fe.base == me && fe.target == (#[trigger] items[k]).atom.target
                            &&& fe.tag@ == spec_tag(
                                LinkDirection::Forward,
                                gold_fields(items[k].atom),
                            )
                            &&& fe.timestamp == ts_after(old(store).next_timestamp, (2 * k) as nat)
                            &&& be.base == items[k].atom.target && be.target == me
                            &&& be.tag@ == spec_tag(
                                LinkDirection::Reverse,
                                gold_fields(items[k].atom),
                            )
                            &&& be.timestamp == ts_after(
                                old(store).next_timestamp,
                                (2 * k + 1) as nat,
                            )
                        })
                    &&& final(store).next_timestamp == ts_after(
                        old(store).next_timestamp,
                        (2 * items.len()) as nat,
                    )
                    &&& old(store).records_v().len() <= final(store).records_v().len()
                    &&& final(store).records_v().len() <= old(store).records_v().len()
                        + items.len()
                    &&& (forall|k: int|
                        0 <= k < old(store).records_v().len() ==> final(store).records_v()[k]
                            == old(store).records_v()[k])
                },
                Err(_) => false,
            },
            Err(e) => {
                &&& spec_gold_items(old(store).edges@, me, silver_view(rollup_silver@)) == Err::<
                    Seq<GoldItemV>,
                    _,
                >(e)
                &&& final(store).edges@ == old(store).edges@
                &&& final(store).records_v() == old(store).records_v()
                &&& final(store).next_timestamp == old(store).next_timestamp
                &&& final(store).local_agent == old(store).local_agent
            },
        },
{
    let plan = match plan_rollup_gold(store, &rollup_silver, me) {
        Ok(p) => p,
        Err(e) => {
            return Err(e);
        },
    };
    let ghost items = spec_gold_items(store.edges@, me, silver_view(rollup_silver@))->Ok_0;
    let ghost old_edges = store.edges@;
    let ghost old_records = store.records_v();
    let ghost t0 = store.next_timestamp;
    let ghost la0 = store.local_agent;
    let mut out: Vec<TrustAtom> = Vec::new();
    let mut k: usize = 0;
    while k < plan.len()
        invariant
            0 <= k <= plan@.len(),
            plan@.len() == items.len(),
            forall|k2: int|
                0 <= k2 < items.len() ==> plan_matches(#[trigger] plan@[k2], me, items[k2]),
            store.local_agent == la0,
            store.edges@.len() == old_edges.len() + 2 * k,
            forall|j: int| 0 <= j < old_edges.len() ==> store.edges@[j] == old_edges[j],
            forall|k2: int|
                0 <= k2 < k ==> {
                    let fe = store.edges@[old_edges.len() + 2 * k2];
                    let be = store.edges@[old_edges.len() + 2 * k2 + 1];
                    &&& fe.base == me && fe.target == (#[trigger] items[k2]).atom.target
                    &&& fe.tag@ == spec_tag(LinkDirection::Forward, gold_fields(items[k2].atom))
                    &&& fe.timestamp == ts_after(t0, (2 * k2) as nat)
                    &&& be.base == items[k2].atom.target && be.target == me
                    &&& be.tag@ == spec_tag(LinkDirection::Reverse, gold_fields(items[k2].atom))
                    &&& be.timestamp == ts_after(t0, (2 * k2 + 1) as nat)
                },
            store.next_timestamp == ts_after(t0, (2 * k) as nat),
            old_records.len() <= store.records_v().len(),
            store.records_v().len() <= old_records.len() + k,
            forall|j: int| 0 <= j < old_records.len() ==> store.records_v()[j] == old_records[j],
            out@.len() == k,
            forall|k2: int| 0 <= k2 < k ==> (#[trigger] out@[k2])@ == items[k2].atom,
        decreases plan@.len() - k,
    {
        let ghost pre_records = store.records_v();
        match &plan[k].prov {
            Some(x) => {
                store.write_extra(x);
                proof {
                    assert(forall|j: int|
                        0 <= j < pre_records.len() ==> store.records_v()[j] == pre_records[j]);
                }
            },
            None => {},
        }
        let fields = TagFields {
            content: clone_opt_string(&plan[k].content),
            value: Some(format_rating(plan[k].value)),
            prefix: Some(String::from_str("rollup")),
            extra: plan[k].extra_id,
            agent_identity: false,
        };
        proof {
            assert(fields@ == gold_fields(items[k as int].atom));
        }
        let forward_tag = encode_tag(LinkDirection::Forward, &fields);
        let backward_tag = encode_tag(LinkDirection::Reverse, &fields);
        let target = plan[k].target;
        store.append_edge(me, target, forward_tag);
        store.append_edge(target, me, backward_tag);
        let atom = TrustAtom {
            source: me,
            target,
            prefix: Some(String::from_str("rollup")),
            content: clone_opt_string(&plan[k].content),
            value: Some(format_rating(plan[k].value)),
            extra: plan[k].extra_id,
            is_agent_identity: false,
        };
        proof {
            assert(atom@ == items[k as int].atom);
            assert(ts_after(t0, (2 * k + 1) as nat) == sat_inc(ts_after(t0, (2 * k) as nat)));
            assert(ts_after(t0, (2 * k + 2) as nat) == sat_inc(ts_after(t0, (2 * k + 1) as nat)));
        }
        out.push(atom);
        k += 1;
    }
    proof {
        assert(atoms_view(out@) =~= spec_gold_atom_list(items));
    }
    Ok(out)
}

/// Run the whole rollup for the local agent: discover known agents,
/// collect each subject's latest qualifying ratings, blend them, and
/// append one rollup atom per qualifying subject, in the order the
/// subjects first appear among the local agent's own atoms. A failure
/// anywhere aborts the run before any write: the store is then
/// unchanged.
pub fn create_rollup_atoms(store: &mut Store) -> (r: Result<Vec<TrustAtom>, TrustAtomError>)
    ensures
        match r {
            Ok(v) => match spec_rollup(old(store).edges@, old(store).local_agent) {
                Ok(items) => {
                    &&& atoms_view(v@) == spec_gold_atom_list(items)
                    &&& final(store).local_agent == old(store).local_agent
                    &&& final(store).edges@.len() == old(store).edges@.len() + 2 * items.len()
                    &&& (forall|k: int|
                        0 <= k < old(store).edges@.len() ==> final(store).edges@[k] == old(
                            store,
                        ).edges@[k])
                    &&& (forall|k: int|
                        0 <= k < items.len() ==> {
                            let fe = final(store).edges@[old(store).edges@.len() + 2 * k];
                            let be = final(store).edges@[old(store).edges@.len() + 2 * k + 1];
                            &&& fe.base == old(store).local_agent && fe.target == (
                            #[trigger] items[k]).atom.target
                            &&& fe.tag@ == spec_tag(
                                LinkDirection::Forward,
                                gold_fields(items[k].atom),
                            )
                            &&& fe.timestamp == ts_after(old(store).next_timestamp, (2 * k) as nat)
                            &&& be.base == items[k].atom.target && be.target == old(
                                store,
                            ).local_agent
                            &&& be.tag@ == spec_tag(
                                LinkDirection::Reverse,
                                gold_fields(items[k].atom),
                            )
                            &&& be.timestamp == ts_after(
                                old(store).next_timestamp,
                                (2 * k + 1) as nat,
                            )
                        })
                    &&& final(store).next_timestamp == ts_after(
                        old(store).next_timestamp,
                        (2 * items.len()) as nat,
                    )
                    &&& old(store).records_v().len() <= final(store).records_v().len()
                    &&& final(store).records_v().len() <= old(store).records_v().len()
                        + items.len()
                    &&& (forall|k: int|
                        0 <= k < old(store).records_v().len() ==> final(store).records_v()[k]
                            == old(store).records_v()[k])
                },
                Err(_) => false,
            },
            Err(e) => {
                &&& spec_rollup(old(store).edges@, old(store).local_agent) == Err::<
                    Seq<GoldItemV>,
                    _,
                >(e)
                &&& final(store).edges@ == old(store).edges@
                &&& final(store).records_v() == old(store).records_v()
                &&& final(store).next_timestamp == old(store).next_timestamp
                &&& final(store).local_agent == old(store).local_agent
            },
        },
{
    let me = store.local_agent_id();
    let my_atoms = match query_mine(store, None, None, None, None) {
        Ok(v) => v,
        Err(e) => {
            return Err(e);
        },
    };
    let agents = build_agent_list(&my_atoms);
    let rollup_silver = match build_rollup_silver(store, me, &my_atoms, &agents) {
        Ok(s) => s,
        Err(e) => {
            return Err(e);
        },
    };
    proof {
        lemma_silver_gate(
            store.edges@,
            me,
            agents@,
            spec_rollup_targets(atoms_view(my_atoms@)),
        );
    }
    build_rollup_gold(store, rollup_silver, me)
}

/// The whole rollup pipeline as one mathematical function of the
/// store's edges and the local agent.
pub open spec fn spec_rollup(edges: Seq<Edge>, me: u64) -> Result<Seq<GoldItemV>, TrustAtomError> {
    match spec_query_dir(edges, me, LinkDirection::Forward, None, None, None) {
        Err(e) => Err(e),
        Ok(my_atoms) => {
            let agents = spec_agent_list(my_atoms);
            match spec_silver(edges, me, agents, spec_rollup_targets(my_atoms)) {
                Err(e) => Err(e),
                Ok(sv) => spec_gold_items(edges, me, sv),
            }
        },
    }
}

} // verus!
