//! Tag codec: the bijective mapping between a trust atom's semantic
//! fields and the text payload stored on a directed edge.
//!
//! A tag consists of, in order: a fixed one-character structural header
//! required by the store, the protocol marker, a direction marker
//! (forward or backward), and then five fields separated by the
//! separator sentinel (the Unicode NUL code point, which cannot appear
//! in ordinary text content): content, value, prefix, extra record id
//! (decimal digits) and the agent-identity flag. The encoding is
//! prefix-filterable: a store that can filter edges whose tag starts
//! with a given text can be handed `link_tag(direction, content_prefix)`
//! to filter by content without decoding every candidate.

use vstd::prelude::*;

use crate::TrustAtomError;

verus! {

pub const TAG_HEADER: char = '\u{1}';

pub const TAG_MARKER: char = '\u{166}';

pub const TAG_FORWARD: char = '\u{2192}';

pub const TAG_REVERSE: char = '\u{21a9}';

pub const TAG_SEPARATOR: char = '\u{0}';

/// Which of the two physical edges of a trust atom a tag belongs to:
/// a forward edge runs from the rating agent to the subject, a reverse
/// edge from the subject back to the agent.
#[derive(Clone, Copy, Debug, PartialEq, Eq, Structural)]
pub enum LinkDirection {
    Forward,
    Reverse,
}

/// The semantic fields carried by one edge tag. `None` fields are
/// encoded as empty chunks and decoded back to `None`.
#[derive(Debug, PartialEq)]
pub struct TagFields {
    pub content: Option<String>,
    pub value: Option<String>,
    pub prefix: Option<String>,
    pub extra: Option<u64>,
    pub agent_identity: bool,
}

/// Mathematical image of `TagFields`: text fields become character
/// sequences.
pub struct TagFieldsV {
    pub content: Option<Seq<char>>,
    pub value: Option<Seq<char>>,
    pub prefix: Option<Seq<char>>,
    pub extra: Option<u64>,
    pub agent_identity: bool,
}

pub open spec fn opt_str_view(o: Option<String>) -> Option<Seq<char>> {
    match o {
        Some(s) => Some(s@),
        None => None,
    }
}

impl View for TagFields {
    type V = TagFieldsV;

    open spec fn view(&self) -> TagFieldsV {
        TagFieldsV {
            content: opt_str_view(self.content),
            value: opt_str_view(self.value),
            prefix: opt_str_view(self.prefix),
            extra: self.extra,
            agent_identity: self.agent_identity,
        }
    }
}

// ---------------------------------------------------------------------
// Specification of the encoding
// ---------------------------------------------------------------------

pub open spec fn opt_chars(o: Option<Seq<char>>) -> Seq<char> {
    match o {
        Some(s) => s,
        None => Seq::empty(),
    }
}

pub open spec fn digit_char(d: int) -> char {
    if d == 0 {
        '0'
    } else if d == 1 {
        '1'
    } else if d == 2 {
        '2'
    } else if d == 3 {
        '3'
    } else if d == 4 {
        '4'
    } else if d == 5 {
        '5'
    } else if d == 6 {
        '6'
    } else if d == 7 {
        '7'
    } else if d == 8 {
        '8'
    } else {
        '9'
    }
}

/// Decimal digit characters of `n`, most significant first.
pub open spec fn dec_chars(n: nat) -> Seq<char>
    decreases n,
{
    if n < 10 {
        seq![digit_char(n as int)]
    } else {
        dec_chars(n / 10).push(digit_char((n % 10) as int))
    }
}

pub open spec fn extra_chars(e: Option<u64>) -> Seq<char> {
    match e {
        Some(n) => dec_chars(n as nat),
        None => Seq::empty(),
    }
}

pub open spec fn flag_chars(b: bool) -> Seq<char> {
    if b {
        seq!['1']
    } else {
        Seq::empty()
    }
}

pub open spec fn dir_char(d: LinkDirection) -> char {
    match d {
        LinkDirection::Forward => TAG_FORWARD,
        LinkDirection::Reverse => TAG_REVERSE,
    }
}

/// The three leading characters shared by every tag of one direction:
/// structural header, protocol marker, direction marker.
pub open spec fn tag_start(d: LinkDirection) -> Seq<char> {
    seq![TAG_HEADER, TAG_MARKER, dir_char(d)]
}

/// The complete tag for direction `d` and fields `f`.
pub open spec fn spec_tag(d: LinkDirection, f: TagFieldsV) -> Seq<char> {
    tag_start(d) + opt_chars(f.content) + seq![TAG_SEPARATOR] + opt_chars(f.value) + seq![
        TAG_SEPARATOR,
    ] + opt_chars(f.prefix) + seq![TAG_SEPARATOR] + extra_chars(f.extra) + seq![TAG_SEPARATOR]
        + flag_chars(f.agent_identity)
}

// ---------------------------------------------------------------------
// Specification of the decoding
// ---------------------------------------------------------------------

pub open spec fn is_digit(c: char) -> bool {
    48 <= c as u32 && c as u32 <= 57
}

pub open spec fn digit_val(c: char) -> int {
    c as u32 - 48
}

pub open spec fn all_digits(s: Seq<char>) -> bool {
    forall|i: int| 0 <= i < s.len() ==> is_digit(#[trigger] s[i])
}

/// Numeric value of a digit sequence, most significant first.
pub open spec fn dec_val(s: Seq<char>) -> int
    decreases s.len(),
{
    if s.len() == 0 {
        0
    } else {
        dec_val(s.drop_last()) * 10 + digit_val(s.last())
    }
}

pub open spec fn sep_free(s: Seq<char>) -> bool {
    forall|i: int| 0 <= i < s.len() ==> #[trigger] s[i] != TAG_SEPARATOR
}

/// Index of the first separator in `s`, or `s.len()` if there is none.
pub open spec fn first_sep(s: Seq<char>) -> nat
    decreases s.len(),
{
    if s.len() == 0 {
        0
    } else if s[0] == TAG_SEPARATOR {
        0
    } else {
        1 + first_sep(s.drop_first())
    }
}

/// The chunks of `s` between separators; one more chunk than there are
/// separators.
pub open spec fn split_seps(s: Seq<char>) -> Seq<Seq<char>>
    decreases s.len(),
{
    let i = first_sep(s);
    if i >= s.len() {
        seq![s]
    } else {
        seq![s.take(i as int)] + split_seps(s.skip(i as int + 1))
    }
}

/// An extra chunk is either empty (no extra record) or the decimal
/// digits of a record id that fits in `u64`.
pub open spec fn spec_parse_extra(s: Seq<char>) -> Option<Option<u64>> {
    if s.len() == 0 {
        Some(None)
    } else if all_digits(s) && dec_val(s) <= u64::MAX {
        Some(Some(dec_val(s) as u64))
    } else {
        None
    }
}

/// A flag chunk is empty (false) or the single character '1' (true).
pub open spec fn spec_parse_flag(s: Seq<char>) -> Option<bool> {
    if s.len() == 0 {
        Some(false)
    } else if s.len() == 1 && s[0] == '1' {
        Some(true)
    } else {
        None
    }
}

pub open spec fn opt_of_chunk(s: Seq<char>) -> Option<Seq<char>> {
    if s.len() == 0 {
        None
    } else {
        Some(s)
    }
}

/// Decoding: strip the header, read the direction marker, split the
/// rest on the separator sentinel and reconstruct the fields
/// positionally. `None` stands for a malformed tag.
pub open spec fn spec_decode(t: Seq<char>) -> Option<(LinkDirection, TagFieldsV)> {
    if t.len() < 3 {
        None
    } else if t[0] != TAG_HEADER || t[1] != TAG_MARKER {
        None
    } else if t[2] != TAG_FORWARD && t[2] != TAG_REVERSE {
        None
    } else {
        let d = if t[2] == TAG_FORWARD {
            LinkDirection::Forward
        } else {
            LinkDirection::Reverse
        };
        let cs = split_seps(t.skip(3));
        if cs.len() != 5 {
            None
        } else {
            match (spec_parse_extra(cs[3]), spec_parse_flag(cs[4])) {
                (Some(e), Some(b)) => Some(
                    (
                        d,
                        TagFieldsV {
                            content: opt_of_chunk(cs[0]),
                            value: opt_of_chunk(cs[1]),
                            prefix: opt_of_chunk(cs[2]),
                            extra: e,
                            agent_identity: b,
                        },
                    ),
                ),
                _ => None,
            }
        }
    }
}

// ---------------------------------------------------------------------
// Properties of digit sequences
// ---------------------------------------------------------------------

pub proof fn lemma_dec_chars_wf(n: nat)
    ensures
        dec_chars(n).len() > 0,
        all_digits(dec_chars(n)),
        sep_free(dec_chars(n)),
        dec_val(dec_chars(n)) == n,
    decreases n,
{
    if n < 10 {
        assert(dec_chars(n) =~= seq![digit_char(n as int)]);
        assert(dec_val(dec_chars(n)) == dec_val(
            dec_chars(n).drop_last(),
        ) * 10 + digit_val(dec_chars(n).last()));
        assert(dec_chars(n).drop_last() =~= Seq::<char>::empty());
    } else {
        lemma_dec_chars_wf(n / 10);
        let s = dec_chars(n);
        let p = dec_chars(n / 10);
        assert(s =~= p.push(digit_char((n % 10) as int)));
        assert(s.drop_last() =~= p);
        assert(s.last() == digit_char((n % 10) as int));
        assert(dec_val(s) == dec_val(p) * 10 + digit_val(s.last()));
        assert(digit_val(digit_char((n % 10) as int)) == n % 10);
        assert(dec_val(s) == (n / 10) * 10 + n % 10);
        assert((n / 10) * 10 + n % 10 == n) by (nonlinear_arith);
        assert forall|i: int| 0 <= i < s.len() implies is_digit(#[trigger] s[i]) by {
            if i < p.len() {
                assert(s[i] == p[i]);
            }
        }
        assert forall|i: int| 0 <= i < s.len() implies #[trigger] s[i] != TAG_SEPARATOR by {
            assert(is_digit(s[i]));
        }
    }
}

/// Appending digits never shrinks the value: every prefix of a digit
/// sequence has a value no greater than the whole.
pub proof fn lemma_dec_val_nonneg(s: Seq<char>)
    requires
        all_digits(s),
    ensures
        dec_val(s) >= 0,
    decreases s.len(),
{
    if s.len() > 0 {
        assert(all_digits(s.drop_last())) by {
            assert(forall|i: int|
                0 <= i < s.drop_last().len() ==> s.drop_last()[i] == #[trigger] s[i]);
        }
        lemma_dec_val_nonneg(s.drop_last());
        assert(is_digit(s.last()));
    }
}

pub proof fn lemma_dec_val_prefix(s: Seq<char>, k: int)
    requires
        all_digits(s),
        0 <= k <= s.len(),
    ensures
        dec_val(s.take(k)) <= dec_val(s),
    decreases s.len(),
{
    if k < s.len() {
        let p = s.drop_last();
        assert(all_digits(p)) by {
            assert(forall|i: int| 0 <= i < p.len() ==> p[i] == #[trigger] s[i]);
        }
        assert(s.take(k) =~= p.take(k));
        lemma_dec_val_prefix(p, k);
        lemma_dec_val_nonneg(p);
        assert(is_digit(s.last()));
        assert(dec_val(s) == dec_val(p) * 10 + digit_val(s.last()));
        assert(dec_val(p) * 10 >= dec_val(p)) by (nonlinear_arith)
            requires
                dec_val(p) >= 0,
        ;
    } else {
        assert(s.take(k) =~= s);
    }
}

// ---------------------------------------------------------------------
// Properties of separator splitting
// ---------------------------------------------------------------------

pub proof fn lemma_first_sep_free(s: Seq<char>)
    requires
        sep_free(s),
    ensures
        first_sep(s) == s.len(),
    decreases s.len(),
{
    if s.len() > 0 {
        assert(s[0] != TAG_SEPARATOR);
        assert(sep_free(s.drop_first())) by {
            assert(forall|i: int|
                0 <= i < s.drop_first().len() ==> s.drop_first()[i] == #[trigger] s[i + 1]);
        }
        lemma_first_sep_free(s.drop_first());
    }
}

pub proof fn lemma_split_sep_free(s: Seq<char>)
    requires
        sep_free(s),
    ensures
        split_seps(s) == seq![s],
{
    lemma_first_sep_free(s);
}

pub proof fn lemma_first_sep_concat(a: Seq<char>, rest: Seq<char>)
    requires
        sep_free(a),
    ensures
        first_sep(a + seq![TAG_SEPARATOR] + rest) == a.len(),
    decreases a.len(),
{
    let s = a + seq![TAG_SEPARATOR] + rest;
    if a.len() == 0 {
        assert(s[0] == TAG_SEPARATOR);
    } else {
        assert(s[0] == a[0]);
        assert(s[0] != TAG_SEPARATOR);
        let a2 = a.drop_first();
        assert(sep_free(a2)) by {
            assert(forall|i: int| 0 <= i < a2.len() ==> a2[i] == #[trigger] a[i + 1]);
        }
        lemma_first_sep_concat(a2, rest);
        assert(s.drop_first() =~= a2 + seq![TAG_SEPARATOR] + rest);
    }
}

pub proof fn lemma_split_concat(a: Seq<char>, rest: Seq<char>)
    requires
        sep_free(a),
    ensures
        split_seps(a + seq![TAG_SEPARATOR] + rest) == seq![a] + split_seps(rest),
{
    let s = a + seq![TAG_SEPARATOR] + rest;
    lemma_first_sep_concat(a, rest);
    assert(first_sep(s) == a.len() < s.len());
    assert(s.take(a.len() as int) =~= a);
    assert(s.skip(a.len() as int + 1) =~= rest);
}

// ---------------------------------------------------------------------
// The round-trip law
// ---------------------------------------------------------------------

/// A text field can be carried through the codec faithfully when it
/// does not contain the separator sentinel and is not the empty string
/// (an empty text field is indistinguishable from an absent one).
pub open spec fn chunk_ok(o: Option<Seq<char>>) -> bool {
    match o {
        Some(s) => s.len() > 0 && sep_free(s),
        None => true,
    }
}

pub open spec fn fields_encodable(f: TagFieldsV) -> bool {
    chunk_ok(f.content) && chunk_ok(f.value) && chunk_ok(f.prefix)
}

/// Round-trip: decoding is the exact inverse of encoding, for both
/// directions and all encodable fields. An empty text field is not
/// encodable: it encodes identically to an absent one and decodes
/// back as absent, which quotients the two forms.
#[verifier::rlimit(100)]
pub proof fn lemma_tag_round_trip(d: LinkDirection, f: TagFieldsV)
    requires
        fields_encodable(f),
    ensures
        spec_decode(spec_tag(d, f)) == Some((d, f)),
{
    let t = spec_tag(d, f);
    let c = opt_chars(f.content);
    let v = opt_chars(f.value);
    let p = opt_chars(f.prefix);
    let e = extra_chars(f.extra);
    let g = flag_chars(f.agent_identity);
    let body = c + seq![TAG_SEPARATOR] + v + seq![TAG_SEPARATOR] + p + seq![TAG_SEPARATOR] + e
        + seq![TAG_SEPARATOR] + g;
    assert(t =~= tag_start(d) + body);
    assert(t.len() >= 3);
    assert(t[0] == TAG_HEADER && t[1] == TAG_MARKER && t[2] == dir_char(d));
    assert(TAG_FORWARD != TAG_REVERSE);
    assert(t.skip(3) =~= body);

    if f.extra is Some {
        lemma_dec_chars_wf(f.extra->0 as nat);
    }
    assert(sep_free(e));
    assert(sep_free(g)) by {
        if f.agent_identity {
            assert(forall|i: int| 0 <= i < g.len() ==> #[trigger] g[i] == '1');
        }
    }
    assert(sep_free(c) && sep_free(v) && sep_free(p));

    let rest1 = v + seq![TAG_SEPARATOR] + p + seq![TAG_SEPARATOR] + e + seq![TAG_SEPARATOR] + g;
    let rest2 = p + seq![TAG_SEPARATOR] + e + seq![TAG_SEPARATOR] + g;
    let rest3 = e + seq![TAG_SEPARATOR] + g;
    assert(body =~= c + seq![TAG_SEPARATOR] + rest1);
    lemma_split_concat(c, rest1);
    assert(rest1 =~= v + seq![TAG_SEPARATOR] + rest2);
    lemma_split_concat(v, rest2);
    assert(rest2 =~= p + seq![TAG_SEPARATOR] + rest3);
    lemma_split_concat(p, rest3);
    lemma_split_concat(e, g);
    lemma_split_sep_free(g);
    let cs = split_seps(body);
    assert(cs =~= seq![c] + (seq![v] + (seq![p] + (seq![e] + seq![g]))));
    assert(cs.len() == 5);
    assert(cs[0] == c && cs[1] == v && cs[2] == p && cs[3] == e && cs[4] == g);

    assert(opt_of_chunk(c) == f.content);
    assert(opt_of_chunk(v) == f.value);
    assert(opt_of_chunk(p) == f.prefix);
    assert(spec_parse_extra(e) == Some(f.extra)) by {
        match f.extra {
            Some(n) => {
                lemma_dec_chars_wf(n as nat);
            },
            None => {},
        }
    }
    assert(spec_parse_flag(g) == Some(f.agent_identity));
    assert(t[2] == TAG_FORWARD <==> d == LinkDirection::Forward);
}

/// Prefix filterability: a partial tag made of the direction's tag
/// start and a content prefix matches the full tag of every atom whose
/// content starts with that prefix, so a store that filters edges by
/// tag prefix can filter by content without decoding any candidate.
pub proof fn lemma_prefix_filterable(d: LinkDirection, f: TagFieldsV, csw: Seq<char>)
    requires
        csw.is_prefix_of(opt_chars(f.content)),
    ensures
        (tag_start(d) + csw).is_prefix_of(spec_tag(d, f)),
{
    let p = tag_start(d) + csw;
    let t = spec_tag(d, f);
    let c = opt_chars(f.content);
    assert(t.len() >= 3 + c.len());
    assert forall|i: int| 0 <= i < p.len() implies p[i] == t[i] by {
        if i >= 3 {
            assert(t[i] == c[i - 3]);
            assert(p[i] == csw[i - 3]);
            assert(csw[i - 3] == c.subrange(0, csw.len() as int)[i - 3]);
        }
    }
    assert(p =~= t.subrange(0, p.len() as int));
}

// ---------------------------------------------------------------------
// Executable encoding
// ---------------------------------------------------------------------

pub fn push_digit(t: &mut String, d: u64)
    requires
        d < 10,
    ensures
        final(t)@ == old(t)@.push(digit_char(d as int)),
{
    if d == 0 {
        proof {
            reveal_strlit("0");
        }
        t.append("0");
    } else if d == 1 {
        proof {
            reveal_strlit("1");
        }
        t.append("1");
    } else if d == 2 {
        proof {
            reveal_strlit("2");
        }
        t.append("2");
    } else if d == 3 {
        proof {
            reveal_strlit("3");
        }
        t.append("3");
    } else if d == 4 {
        proof {
            reveal_strlit("4");
        }
        t.append("4");
    } else if d == 5 {
        proof {
            reveal_strlit("5");
        }
        t.append("5");
    } else if d == 6 {
        proof {
            reveal_strlit("6");
        }
        t.append("6");
    } else if d == 7 {
        proof {
            reveal_strlit("7");
        }
        t.append("7");
    } else if d == 8 {
        proof {
            reveal_strlit("8");
        }
        t.append("8");
    } else {
        proof {
            reveal_strlit("9");
        }
        t.append("9");
    }
    proof {
        assert(t@ =~= old(t)@.push(digit_char(d as int)));
    }
}

/// Decimal rendering of a record id, used for the extra field of a tag
/// and for the provenance fields of a rollup's extra record.
pub fn u64_to_string(n: u64) -> (s: String)
    ensures
        s@ == dec_chars(n as nat),
    decreases n,
{
    if n < 10 {
        let mut s = String::new();
        push_digit(&mut s, n);
        proof {
            assert(s@ =~= dec_chars(n as nat));
        }
        s
    } else {
        let mut s = u64_to_string(n / 10);
        push_digit(&mut s, n % 10);
        proof {
            assert(s@ =~= dec_chars(n as nat));
        }
        s
    }
}

fn append_opt(t: &mut String, o: &Option<String>)
    ensures
        final(t)@ == old(t)@ + opt_chars(opt_str_view(*o)),
{
    match o {
        Some(s) => {
            t.append(s.as_str());
        },
        None => {
            proof {
                assert(t@ =~= t@ + opt_chars(opt_str_view(*o)));
            }
        },
    }
}

/// Encode the fields of one trust atom into the tag of an edge of
/// direction `d`.
pub fn encode_tag(d: LinkDirection, f: &TagFields) -> (t: String)
    ensures
        t@ == spec_tag(d, f@),
{
    proof {
        reveal_strlit("\u{1}");
        reveal_strlit("\u{166}");
        reveal_strlit("\u{2192}");
        reveal_strlit("\u{21a9}");
        reveal_strlit("\u{0}");
        reveal_strlit("1");
    }
    let mut t = String::new();
    t.append("\u{1}");
    t.append("\u{166}");
    match d {
        LinkDirection::Forward => t.append("\u{2192}"),
        LinkDirection::Reverse => t.append("\u{21a9}"),
    }
    append_opt(&mut t, &f.content);
    t.append("\u{0}");
    append_opt(&mut t, &f.value);
    t.append("\u{0}");
    append_opt(&mut t, &f.prefix);
    t.append("\u{0}");
    match &f.extra {
        Some(e) => {
            let es = u64_to_string(*e);
            t.append(es.as_str());
        },
        None => {},
    }
    t.append("\u{0}");
    if f.agent_identity {
        t.append("1");
    }
    proof {
        assert(t@ =~= spec_tag(d, f@));
    }
    t
}

/// A partial tag for prefix filtering: the shared start of every tag of
/// direction `d`, followed by `text` (typically a content prefix). The
/// store can match it against stored tags without decoding them.
pub fn link_tag(d: LinkDirection, text: &str) -> (t: String)
    ensures
        t@ == tag_start(d) + text@,
{
    proof {
        reveal_strlit("\u{1}");
        reveal_strlit("\u{166}");
        reveal_strlit("\u{2192}");
        reveal_strlit("\u{21a9}");
    }
    let mut t = String::new();
    t.append("\u{1}");
    t.append("\u{166}");
    match d {
        LinkDirection::Forward => t.append("\u{2192}"),
        LinkDirection::Reverse => t.append("\u{21a9}"),
    }
    t.append(text);
    proof {
        assert(t@ =~= tag_start(d) + text@);
    }
    t
}

/// Character-wise prefix test, the model of the store's tag filter.
pub fn str_starts_with(s: &str, p: &str) -> (b: bool)
    ensures
        b == p@.is_prefix_of(s@),
{
    let sl = s.unicode_len();
    let pl = p.unicode_len();
    if pl > sl {
        return false;
    }
    let mut i: usize = 0;
    while i < pl
        invariant
            0 <= i <= pl,
            pl == p@.len(),
            sl == s@.len(),
            pl <= sl,
            forall|j: int| 0 <= j < i ==> p@[j] == s@[j],
        decreases pl - i,
    {
        if p.get_char(i) != s.get_char(i) {
            proof {
                assert(s@.subrange(0, pl as int)[i as int] == s@[i as int]);
            }
            return false;
        }
        i += 1;
    }
    proof {
        assert(p@ =~= s@.subrange(0, pl as int));
    }
    true
}

// ---------------------------------------------------------------------
// Executable decoding
// ---------------------------------------------------------------------

pub fn parse_u64_digits(s: &str) -> (r: Option<u64>)
    ensures
        match r {
            Some(v) => s@.len() > 0 && all_digits(s@) && dec_val(s@) == v,
            None => s@.len() == 0 || !all_digits(s@) || dec_val(s@) > u64::MAX,
        },
{
    let n = s.unicode_len();
    if n == 0 {
        return None;
    }
    let mut v: u64 = 0;
    let mut i: usize = 0;
    while i < n
        invariant
            0 <= i <= n,
            n == s@.len(),
            all_digits(s@.take(i as int)),
            v == dec_val(s@.take(i as int)),
        decreases n - i,
    {
        let c = s.get_char(i);
        let u = c as u32;
        if u < 48 || u > 57 {
            proof {
                assert(!is_digit(s@[i as int]));
            }
            return None;
        }
        let d = (u - 48) as u64;
        proof {
            assert(s@.take(i + 1).drop_last() =~= s@.take(i as int));
            assert(s@.take(i + 1).last() == s@[i as int]);
            assert(dec_val(s@.take(i + 1)) == dec_val(s@.take(i as int)) * 10 + digit_val(
                s@[i as int],
            ));
            assert(all_digits(s@.take(i + 1))) by {
                assert(forall|j: int|
                    0 <= j < i ==> s@.take(i + 1)[j] == #[trigger] s@.take(i as int)[j]);
            }
        }
        if v > (u64::MAX - d) / 10 {
            proof {
                assert(v * 10 + d > u64::MAX) by (nonlinear_arith)
                    requires
                        v > (u64::MAX - d) / 10,
                        d <= u64::MAX,
                ;
                if all_digits(s@) {
                    lemma_dec_val_prefix(s@, i + 1);
                }
            }
            return None;
        }
        proof {
            assert(v * 10 + d <= u64::MAX) by (nonlinear_arith)
                requires
                    v <= (u64::MAX - d) / 10,
                    d <= u64::MAX,
            ;
        }
        v = v * 10 + d;
        i += 1;
    }
    proof {
        assert(s@.take(n as int) =~= s@);
    }
    Some(v)
}

fn opt_of_string(s: String) -> (r: Option<String>)
    ensures
        opt_str_view(r) == opt_of_chunk(s@),
{
    if s.as_str().unicode_len() == 0 {
        None
    } else {
        Some(s)
    }
}

/// Decode one edge tag back into a direction and the atom's fields.
/// Fails with `MalformedTag` exactly where `spec_decode` has no answer:
/// a tag too short, a wrong header or marker, an unrecognised direction
/// marker, a wrong field count, or a bad extra or flag chunk.
pub fn decode_tag(tag: &str) -> (r: Result<(LinkDirection, TagFields), TrustAtomError>)
    ensures
        match r {
            Ok(df) => spec_decode(tag@) == Some((df.0, df.1@)),
            Err(e) => spec_decode(tag@) is None && e == TrustAtomError::MalformedTag,
        },
{
    let n = tag.unicode_len();
    if n < 3 {
        return Err(TrustAtomError::MalformedTag);
    }
    if tag.get_char(0) != TAG_HEADER || tag.get_char(1) != TAG_MARKER {
        return Err(TrustAtomError::MalformedTag);
    }
    let dc = tag.get_char(2);
    let dir: LinkDirection = if dc == TAG_FORWARD {
        LinkDirection::Forward
    } else if dc == TAG_REVERSE {
        LinkDirection::Reverse
    } else {
        return Err(TrustAtomError::MalformedTag);
    };
    let ghost body = tag@.skip(3);

    let mut chunks: Vec<String> = Vec::new();
    let mut start: usize = 3;
    let mut i: usize = 3;
    while i < n
        invariant
            3 <= start <= i <= n,
            n == tag@.len(),
            body == tag@.skip(3),
            sep_free(tag@.subrange(start as int, i as int)),
            split_seps(body) =~= chunks@.map_values(|s: String| s@) + split_seps(
                tag@.subrange(start as int, n as int),
            ),
        decreases n - i,
    {
        if tag.get_char(i) == TAG_SEPARATOR {
            let chunk = String::from_str(tag.substring_char(start, i));
            proof {
                let a = tag@.subrange(start as int, i as int);
                let rest = tag@.subrange(i + 1, n as int);
                assert(tag@.subrange(start as int, n as int) =~= a + seq![TAG_SEPARATOR] + rest);
                lemma_split_concat(a, rest);
                assert((chunks@.push(chunk)).map_values(|s: String| s@) =~= chunks@.map_values(
                    |s: String| s@,
                ).push(chunk@));
            }
            chunks.push(chunk);
            start = i + 1;
            proof {
                assert(sep_free(tag@.subrange(start as int, start as int)));
            }
        } else {
            proof {
                let a = tag@.subrange(start as int, i + 1);
                assert(forall|j: int|
                    0 <= j < a.len() - 1 ==> a[j] == #[trigger] tag@.subrange(
                        start as int,
                        i as int,
                    )[j]);
                assert(a[a.len() - 1] == tag@[i as int]);
                assert(sep_free(a));
            }
        }
        i += 1;
    }
    let last = String::from_str(tag.substring_char(start, n));
    proof {
        lemma_split_sep_free(tag@.subrange(start as int, n as int));
        assert((chunks@.push(last)).map_values(|s: String| s@) =~= chunks@.map_values(
            |s: String| s@,
        ).push(last@));
    }
    chunks.push(last);
    proof {
        assert(split_seps(body) =~= chunks@.map_values(|s: String| s@));
    }

    if chunks.len() != 5 {
        return Err(TrustAtomError::MalformedTag);
    }
    let ghost cs = split_seps(body);

    let extra: Option<u64> = if chunks[3].as_str().unicode_len() == 0 {
        None
    } else {
        match parse_u64_digits(chunks[3].as_str()) {
            Some(v) => Some(v),
            None => {
                return Err(TrustAtomError::MalformedTag);
            },
        }
    };
    proof {
        assert(spec_parse_extra(cs[3]) == Some(extra));
    }

    let flag_len = chunks[4].as_str().unicode_len();
    let agent_identity: bool = if flag_len == 0 {
        false
    } else if flag_len == 1 && chunks[4].as_str().get_char(0) == '1' {
        true
    } else {
        return Err(TrustAtomError::MalformedTag);
    };
    proof {
        assert(spec_parse_flag(cs[4]) == Some(agent_identity));
    }

    let content = opt_of_string(chunks[0].clone());
    let value = opt_of_string(chunks[1].clone());
    let prefix = opt_of_string(chunks[2].clone());
    let f = TagFields { content, value, prefix, extra, agent_identity };
    proof {
        assert(spec_decode(tag@) == Some((dir, f@)));
    }
    Ok((dir, f))
}

} // verus!
