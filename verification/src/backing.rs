//! Trusted boundary to the `multimap` crate.
//!
//! The parsed index is held in a `multimap::MultiMap<String, Option<String>>`.
//! The type is declared for the verifier, its abstract contents are named by
//! [`mm_contents`], and each method the library calls is reached through a
//! wrapper whose contract states, over that name, what the crate's source
//! shows the method to do.

use vstd::prelude::*;
use crate::model::{IndexView, record_occurrence};

verus! {

#[verifier::external_type_specification]
#[verifier::external_body]
#[verifier::reject_recursive_types(K)]
#[verifier::reject_recursive_types(V)]
#[verifier::reject_recursive_types(S)]
pub struct ExMultiMap<K, V, S>(multimap::MultiMap<K, V, S>);

/// The abstract contents of the backing multimap: each key's ordered list of
/// values, as sequences of characters.
pub uninterp spec fn mm_contents(m: multimap::MultiMap<String, Option<String>>) -> IndexView;

/// Relies on `multimap::MultiMap::new`: creates an empty multimap.
#[verifier::external_body]
pub(crate) fn mm_new() -> (r: multimap::MultiMap<String, Option<String>>)
    ensures
        mm_contents(r) == IndexView::empty(),
{
    multimap::MultiMap::new()
}

/// Relies on `multimap::MultiMap::insert`: pushes the value onto the vector
/// already stored under the key, or stores a fresh one-element vector when
/// the key is new.
#[verifier::external_body]
pub(crate) fn mm_insert(
    m: &mut multimap::MultiMap<String, Option<String>>,
    k: String,
    v: Option<String>,
)
    ensures
        mm_contents(*final(m)) == record_occurrence(mm_contents(*old(m)), k@, v.deep_view()),
{
    m.insert(k, v)
}

/// Relies on `multimap::MultiMap::contains_key`: true iff the key has an
/// entry in the underlying hash map.
#[verifier::external_body]
pub(crate) fn mm_contains_key(m: &multimap::MultiMap<String, Option<String>>, k: &str) -> (r: bool)
    ensures
        r == mm_contents(*m).dom().contains(k@),
{
    m.contains_key(k)
}

/// Relies on `multimap::MultiMap::get`: the first element of the vector
/// stored under the key, or `None` when the key is absent or its vector is
/// empty.
#[verifier::external_body]
pub(crate) fn mm_get<'a>(
    m: &'a multimap::MultiMap<String, Option<String>>,
    k: &str,
) -> (r: Option<&'a Option<String>>)
    ensures
        match r {
            Some(v) => mm_contents(*m).dom().contains(k@) && mm_contents(*m)[k@].len() > 0
                && v.deep_view() == mm_contents(*m)[k@][0],
            None => !mm_contents(*m).dom().contains(k@) || mm_contents(*m)[k@].len() == 0,
        },
{
    m.get(k)
}

/// Relies on `multimap::MultiMap::get_vec`: the whole vector stored under the
/// key, or `None` when the key is absent.
#[verifier::external_body]
pub(crate) fn mm_get_vec<'a>(
    m: &'a multimap::MultiMap<String, Option<String>>,
    k: &str,
) -> (r: Option<&'a Vec<Option<String>>>)
    ensures
        match r {
            Some(v) => mm_contents(*m).dom().contains(k@) && v.deep_view() == mm_contents(*m)[k@],
            None => !mm_contents(*m).dom().contains(k@),
        },
{
    m.get_vec(k)
}

/// Relies on `multimap::MultiMap::len`: the number of distinct keys.
#[verifier::external_body]
pub(crate) fn mm_len(m: &multimap::MultiMap<String, Option<String>>) -> (r: usize)
    ensures
        r == mm_contents(*m).dom().len(),
{
    m.len()
}

/// Relies on `multimap::MultiMap::is_empty`: true iff the underlying hash map
/// holds no key.
#[verifier::external_body]
pub(crate) fn mm_is_empty(m: &multimap::MultiMap<String, Option<String>>) -> (r: bool)
    ensures
        r == mm_contents(*m).dom().is_empty(),
{
    m.is_empty()
}

} // verus!
