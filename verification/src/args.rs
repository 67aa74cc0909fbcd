//! The argument parser and the multi-valued index it builds.

use vstd::prelude::*;
use crate::backing::{
    mm_contains_key, mm_contents, mm_get, mm_get_vec, mm_insert, mm_is_empty, mm_len, mm_new,
};
use crate::model::{has_present, lemma_parse_prefix_wf, parse_prefix, parse_spec, IndexView};

verus! {

/// A parsed, immutable, multi-valued index of command-line flags.
///
/// Its view is the mapping described in [`crate::model`]: flag name to the
/// ordered sequence of values its occurrences carried, in input order.
pub struct Arguments {
    arg_map: multimap::MultiMap<String, Option<String>>,
}

impl View for Arguments {
    type V = IndexView;

    closed spec fn view(&self) -> IndexView {
        mm_contents(self.arg_map)
    }
}

impl Arguments {
    /// Every key of the index maps to at least one recorded value, and the
    /// key set is finite.
    #[verifier::type_invariant]
    spec fn wf(self) -> bool {
        &&& self@.dom().finite()
        &&& forall|k: Seq<char>| #[trigger] self@.dom().contains(k) ==> self@[k].len() > 0
    }

    /// Parse a sequence of tokens. This cannot fail: every token that begins
    /// with `-` becomes a flag occurrence named by the token with that one
    /// leading `-` stripped, and the following token (empty at the end of
    /// input) supplies its value unless it is empty or itself begins with
    /// `-`. Tokens without a leading `-` contribute no key of their own.
    pub fn parse(args: &[String]) -> (r: Arguments)
        ensures
            r@ == parse_spec(args.deep_view()),
    {
        let ghost toks: Seq<Seq<char>> = args.deep_view();
        let mut arg_map = mm_new();
        let n = args.len();
        let mut i: usize = 0;
        while i < n
            invariant
                n == args.len(),
                toks == args.deep_view(),
                i <= n,
                mm_contents(arg_map) == parse_prefix(toks, i as int),
            decreases n - i,
        {
            let tok: &str = args[i].as_str();
            if !tok.is_empty() && tok.get_char(0) == '-' {
                let name: String = tok.substring_char(1, tok.unicode_len()).to_owned();
                let val: Option<String> = if i + 1 < n {
                    let nxt: &str = args[i + 1].as_str();
                    if nxt.is_empty() || nxt.get_char(0) == '-' {
                        None
                    } else {
                        Some(nxt.to_owned())
                    }
                } else {
                    None
                };
                mm_insert(&mut arg_map, name, val);
            }
            i = i + 1;
        }
        proof {
            lemma_parse_prefix_wf(toks, n as int);
        }
        Arguments { arg_map }
    }

    /// Whether the flag name has at least one occurrence, whatever its
    /// values.
    pub fn contains(&self, key: &str) -> (r: bool)
        ensures
            r == self@.dom().contains(key@),
    {
        mm_contains_key(&self.arg_map, key)
    }

    /// Whether the flag name has at least one occurrence whose value is
    /// present.
    pub fn contains_val(&self, key: &str) -> (r: bool)
        ensures
            r == (self@.dom().contains(key@) && has_present(self@[key@])),
    {
        match mm_get_vec(&self.arg_map, key) {
            None => false,
            Some(vals) => {
                let m = vals.len();
                let mut j: usize = 0;
                let mut found = false;
                while j < m
                    invariant
                        m == vals.len(),
                        j <= m,
                        vals.deep_view() == self@[key@],
                        self@.dom().contains(key@),
                        found == has_present(self@[key@].take(j as int)),
                    decreases m - j,
                {
                    if vals[j].is_some() {
                        found = true;
                    }
                    proof {
                        let vs = self@[key@];
                        assert(vals.deep_view()[j as int] == vals@[j as int].deep_view());
                        assert(vs.take(j as int + 1) =~= vs.take(j as int).push(vs[j as int]));
                        if vals@[j as int] is Some {
                            assert(vs.take(j as int + 1)[j as int] is Some);
                            assert(has_present(vs.take(j as int + 1)));
                        } else if has_present(vs.take(j as int + 1)) {
                            let i = choose|i: int|
                                0 <= i < vs.take(j as int + 1).len() && (#[trigger] vs.take(
                                    j as int + 1,
                                )[i]) is Some;
                            assert(vs.take(j as int)[i] is Some);
                            assert(has_present(vs.take(j as int)));
                        }
                    }
                    j = j + 1;
                }
                proof {
                    assert(self@[key@].take(m as int) =~= self@[key@]);
                }
                found
            },
        }
    }

    /// Whether the index holds no key at all.
    pub fn is_empty(&self) -> (r: bool)
        ensures
            r == self@.dom().is_empty(),
    {
        mm_is_empty(&self.arg_map)
    }

    /// The value of the first occurrence of the flag name: `None` when the
    /// name has no occurrence, `Some(None)` when its first occurrence carried
    /// no value, and `Some(Some(v))` otherwise.
    pub fn get<'a>(&'a self, key: &str) -> (r: Option<Option<&'a str>>)
        ensures
            match r {
                None => !self@.dom().contains(key@),
                Some(None) => self@.dom().contains(key@) && self@[key@][0] is None,
                Some(Some(v)) => self@.dom().contains(key@) && self@[key@][0] == Some(v@),
            },
    {
        proof {
            use_type_invariant(&*self);
        }
        match mm_get(&self.arg_map, key) {
            None => None,
            Some(first) => match first {
                None => Some(None),
                Some(s) => Some(Some(s.as_str())),
            },
        }
    }

    /// The values of all occurrences of the flag name, in input order, or
    /// `None` when the name has no occurrence.
    pub fn get_vec<'a>(&'a self, key: &str) -> (r: Option<&'a Vec<Option<String>>>)
        ensures
            match r {
                Some(v) => self@.dom().contains(key@) && v.deep_view() == self@[key@],
                None => !self@.dom().contains(key@),
            },
    {
        mm_get_vec(&self.arg_map, key)
    }

    /// The number of distinct flag names in the index (not the number of
    /// occurrences).
    pub fn len(&self) -> (r: usize)
        ensures
            r == self@.dom().len(),
    {
        proof {
            use_type_invariant(&*self);
        }
        mm_len(&self.arg_map)
    }
}

} // verus!
