//! General properties of the parsing rule, stated over the model and proved
//! once for every input.

use vstd::prelude::*;
use crate::model::{
    flag_count, flag_name, is_flag_token, lemma_parse_prefix_wf, occurrence_value, occurrences_of,
    parse_prefix, parse_spec, record_occurrence, total_values, IndexView,
};

verus! {

/// Removing one key splits the total value count: the key's own list length
/// plus the total of the remainder.
proof fn lemma_total_values_remove(m: IndexView, k: Seq<char>)
    requires
        m.dom().finite(),
        m.dom().contains(k),
    ensures
        total_values(m) == m[k].len() + total_values(m.remove(k)),
    decreases m.dom().len(),
{
    let k0 = m.dom().choose();
    assert(m.dom().contains(k0));
    if k0 == k {
        assert(total_values(m) == m[k].len() + total_values(m.remove(k)));
    } else {
        lemma_total_values_remove(m.remove(k0), k);
        lemma_total_values_remove(m.remove(k), k0);
        assert(m.remove(k0).remove(k) =~= m.remove(k).remove(k0));
    }
}

/// Recording one occurrence raises the total value count by exactly one,
/// whether the key is new or repeated.
proof fn lemma_total_values_record(m: IndexView, k: Seq<char>, v: Option<Seq<char>>)
    requires
        m.dom().finite(),
    ensures
        total_values(record_occurrence(m, k, v)) == total_values(m) + 1,
{
    let m2 = record_occurrence(m, k, v);
    lemma_total_values_remove(m2, k);
    assert(m2.remove(k) =~= m.remove(k));
    if m.dom().contains(k) {
        lemma_total_values_remove(m, k);
    } else {
        assert(m.remove(k) =~= m);
        assert(m2[k] =~= seq![v]);
    }
}

/// Over any prefix, the total value count of the index equals the number of
/// flag tokens seen.
proof fn lemma_parse_prefix_total(tokens: Seq<Seq<char>>, n: int)
    ensures
        total_values(parse_prefix(tokens, n)) == flag_count(tokens, n),
    decreases n,
{
    if n <= 0 {
        assert(parse_prefix(tokens, n).dom() =~= Set::<Seq<char>>::empty());
    } else {
        lemma_parse_prefix_total(tokens, n - 1);
        lemma_parse_prefix_wf(tokens, n - 1);
        if is_flag_token(tokens[n - 1]) {
            lemma_total_values_record(
                parse_prefix(tokens, n - 1),
                flag_name(tokens[n - 1]),
                occurrence_value(tokens, n - 1),
            );
        }
    }
}

/// Law: the total number of values recorded across all keys of the parsed
/// index equals the number of input tokens that begin with `-`.
pub proof fn lemma_total_occurrence_count(tokens: Seq<Seq<char>>)
    ensures
        total_values(parse_spec(tokens)) == flag_count(tokens, tokens.len() as int),
{
    lemma_parse_prefix_total(tokens, tokens.len() as int);
}

/// Over any prefix, a key stands in the index exactly when it has an
/// occurrence, and its value list is exactly the ordered values of its
/// occurrences.
proof fn lemma_parse_prefix_occurrences(tokens: Seq<Seq<char>>, n: int, k: Seq<char>)
    ensures
        parse_prefix(tokens, n).dom().contains(k) <==> occurrences_of(tokens, n, k).len() > 0,
        parse_prefix(tokens, n).dom().contains(k) ==> parse_prefix(tokens, n)[k]
            == occurrences_of(tokens, n, k),
    decreases n,
{
    if n > 0 {
        lemma_parse_prefix_occurrences(tokens, n - 1, k);
        let m1 = parse_prefix(tokens, n - 1);
        if is_flag_token(tokens[n - 1]) && flag_name(tokens[n - 1]) == k {
            if !m1.dom().contains(k) {
                assert(occurrences_of(tokens, n - 1, k) =~= Seq::<Option<Seq<char>>>::empty());
                assert(seq![occurrence_value(tokens, n - 1)] =~= occurrences_of(
                    tokens,
                    n - 1,
                    k,
                ).push(occurrence_value(tokens, n - 1)));
            }
        }
    }
}

/// Law: each key of the parsed index lists exactly the values of that flag
/// name's occurrences, in input order; a name is a key exactly when it
/// occurs.
pub proof fn lemma_index_lists_occurrences(tokens: Seq<Seq<char>>, k: Seq<char>)
    ensures
        parse_spec(tokens).dom().contains(k) <==> occurrences_of(
            tokens,
            tokens.len() as int,
            k,
        ).len() > 0,
        parse_spec(tokens).dom().contains(k) ==> parse_spec(tokens)[k] == occurrences_of(
            tokens,
            tokens.len() as int,
            k,
        ),
{
    lemma_parse_prefix_occurrences(tokens, tokens.len() as int, k);
}

/// A shorter prefix of the input yields a prefix of each key's occurrence
/// list.
proof fn lemma_occurrences_prefix(tokens: Seq<Seq<char>>, n1: int, n2: int, k: Seq<char>)
    requires
        n1 <= n2,
    ensures
        occurrences_of(tokens, n1, k).is_prefix_of(occurrences_of(tokens, n2, k)),
    decreases n2 - n1,
{
    let a = occurrences_of(tokens, n1, k);
    if n1 == n2 {
        assert(a =~= a.subrange(0, a.len() as int));
    } else {
        lemma_occurrences_prefix(tokens, n1, n2 - 1, k);
        let b = occurrences_of(tokens, n2 - 1, k);
        let c = occurrences_of(tokens, n2, k);
        if is_flag_token(tokens[n2 - 1]) && flag_name(tokens[n2 - 1]) == k {
            assert(c.subrange(0, a.len() as int) =~= b.subrange(0, a.len() as int));
        }
        assert(a =~= c.subrange(0, a.len() as int));
    }
}

/// Law: a flag followed directly by a token that itself begins with `-` is
/// recorded with an absent value, never a present one. The occurrence at
/// position `i` is the entry of its name's value list right after the
/// occurrences among the earlier tokens.
pub proof fn lemma_value_like_flag_absent(tokens: Seq<Seq<char>>, i: int)
    requires
        0 <= i,
        i + 1 < tokens.len(),
        is_flag_token(tokens[i]),
        is_flag_token(tokens[i + 1]),
    ensures
        ({
            let k = flag_name(tokens[i]);
            let j: int = occurrences_of(tokens, i, k).len() as int;
            &&& parse_spec(tokens).dom().contains(k)
            &&& j < parse_spec(tokens)[k].len()
            &&& parse_spec(tokens)[k][j] is None
        }),
{
    let k = flag_name(tokens[i]);
    let j: int = occurrences_of(tokens, i, k).len() as int;
    let full: int = tokens.len() as int;
    assert(occurrence_value(tokens, i) is None);
    assert(occurrences_of(tokens, i + 1, k) == occurrences_of(tokens, i, k).push(
        occurrence_value(tokens, i),
    ));
    lemma_occurrences_prefix(tokens, i + 1, full, k);
    lemma_parse_prefix_occurrences(tokens, full, k);
    assert(occurrences_of(tokens, full, k)[j] == occurrences_of(tokens, i + 1, k)[j]);
}

/// Law: no key of the parsed index maps to an empty value list — every
/// occurrence contributes exactly one value, possibly absent.
pub proof fn lemma_no_empty_value_list(tokens: Seq<Seq<char>>, k: Seq<char>)
    ensures
        parse_spec(tokens).dom().contains(k) ==> parse_spec(tokens)[k].len() > 0,
{
    lemma_parse_prefix_wf(tokens, tokens.len() as int);
}

} // verus!
