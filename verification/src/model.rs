//! Mathematical model of the parsing rule.
//!
//! A token sequence is a `Seq<Seq<char>>`. The parsed index is modelled as a
//! map from flag name to the ordered sequence of values recorded for that
//! name, one entry per occurrence, in input order. A value is `None` where no
//! qualifying token followed the flag, and `Some(v)` otherwise.

use vstd::prelude::*;

verus! {

/// The model of the parsed index: flag name to ordered value list.
pub type IndexView = Map<Seq<char>, Seq<Option<Seq<char>>>>;

/// A token is a flag occurrence when it begins with `-`.
pub open spec fn is_flag_token(t: Seq<char>) -> bool {
    t.len() > 0 && t[0] == '-'
}

/// The flag name of a flag token: the token with exactly one leading `-`
/// stripped (so `--verbose` yields the name `-verbose`).
pub open spec fn flag_name(t: Seq<char>) -> Seq<char>
    recommends
        is_flag_token(t),
{
    t.subrange(1, t.len() as int)
}

/// The candidate value for the token at position `i`: the following token,
/// or the empty string when `i` is the last position.
pub open spec fn candidate_value(tokens: Seq<Seq<char>>, i: int) -> Seq<char> {
    if i + 1 < tokens.len() {
        tokens[i + 1]
    } else {
        Seq::empty()
    }
}

/// The value recorded for a flag occurrence at position `i`: absent when the
/// candidate value is empty or itself begins with `-`, present otherwise.
pub open spec fn occurrence_value(tokens: Seq<Seq<char>>, i: int) -> Option<Seq<char>> {
    let c = candidate_value(tokens, i);
    if c.len() == 0 || c[0] == '-' {
        None
    } else {
        Some(c)
    }
}

/// Append one occurrence of flag name `k` with value `v` to the index,
/// starting a fresh one-element list when `k` is new.
pub open spec fn record_occurrence(m: IndexView, k: Seq<char>, v: Option<Seq<char>>) -> IndexView {
    if m.dom().contains(k) {
        m.insert(k, m[k].push(v))
    } else {
        m.insert(k, seq![v])
    }
}

/// The index built from the first `n` tokens (each position still sees the
/// full sequence, so the last of the `n` tokens keeps its lookahead).
pub open spec fn parse_prefix(tokens: Seq<Seq<char>>, n: int) -> IndexView
    decreases n,
{
    if n <= 0 {
        Map::empty()
    } else {
        let m = parse_prefix(tokens, n - 1);
        if is_flag_token(tokens[n - 1]) {
            record_occurrence(m, flag_name(tokens[n - 1]), occurrence_value(tokens, n - 1))
        } else {
            m
        }
    }
}

/// The index that parsing the whole token sequence yields.
pub open spec fn parse_spec(tokens: Seq<Seq<char>>) -> IndexView {
    parse_prefix(tokens, tokens.len() as int)
}

/// The ordered values of the occurrences of flag name `k` among the first
/// `n` tokens.
pub open spec fn occurrences_of(tokens: Seq<Seq<char>>, n: int, k: Seq<char>) -> Seq<
    Option<Seq<char>>,
>
    decreases n,
{
    if n <= 0 {
        Seq::empty()
    } else {
        let rest = occurrences_of(tokens, n - 1, k);
        if is_flag_token(tokens[n - 1]) && flag_name(tokens[n - 1]) == k {
            rest.push(occurrence_value(tokens, n - 1))
        } else {
            rest
        }
    }
}

/// Whether some entry of a value list is present (not absent).
pub open spec fn has_present(vals: Seq<Option<Seq<char>>>) -> bool {
    exists|i: int| 0 <= i < vals.len() && vals[i] is Some
}

/// How many of the first `n` tokens are flag occurrences.
pub open spec fn flag_count(tokens: Seq<Seq<char>>, n: int) -> nat
    decreases n,
{
    if n <= 0 {
        0
    } else {
        flag_count(tokens, n - 1) + (if is_flag_token(tokens[n - 1]) {
            1nat
        } else {
            0nat
        })
    }
}

/// The total number of recorded values across all keys of an index.
pub open spec fn total_values(m: IndexView) -> nat
    decreases m.dom().len()
        when m.dom().finite()
{
    if m.dom().is_empty() {
        0
    } else {
        let k = m.dom().choose();
        m[k].len() + total_values(m.remove(k))
    }
}

/// The index built from any prefix has a finite key set, and no key of it
/// maps to an empty value list.
pub proof fn lemma_parse_prefix_wf(tokens: Seq<Seq<char>>, n: int)
    ensures
        parse_prefix(tokens, n).dom().finite(),
        forall|k: Seq<char>| #[trigger]
            parse_prefix(tokens, n).dom().contains(k) ==> parse_prefix(tokens, n)[k].len() > 0,
    decreases n,
{
    if n > 0 {
        lemma_parse_prefix_wf(tokens, n - 1);
    }
}

} // verus!
