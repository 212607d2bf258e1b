//! The word splitter's primitives: taking a word up to a separator character
//! and taking a quoted literal whole, quotes included.

use vstd::prelude::*;
use vstd::slice::slice_subrange;
use crate::text::{find_char, lemma_find_char_props, str_find_char};

verus! {

/// The word before the first occurrence of `until`, and the text after it.
/// `None` when `until` never occurs.
pub open spec fn take_until_spec(s: Seq<char>, until: char) -> Option<(Seq<char>, Seq<char>)> {
    match find_char(s, until) {
        None => None,
        Some(i) => Some((s.subrange(0, i), s.subrange(i + 1, s.len() as int))),
    }
}

/// Splits off the text before the first occurrence of `until`; the remainder
/// starts right after that character. `None` when `until` is absent.
pub fn take_until(s: &str, until: char) -> (r: Option<(String, String)>)
    ensures
        match r {
            Some(p) => take_until_spec(s@, until) == Some((p.0@, p.1@)),
            None => take_until_spec(s@, until) is None,
        },
{
    match str_find_char(s, until) {
        None => None,
        Some(i) => {
            proof {
                lemma_find_char_props(s@, until);
            }
            let n = s.unicode_len();
            let word = String::from_str(s.substring_char(0, i));
            let rest = String::from_str(s.substring_char(i + 1, n));
            Some((word, rest))
        },
    }
}

/// The prefix of `s` through the second quote character, and the remainder
/// after it. `None` when `s` holds fewer than two quotes.
pub open spec fn take_string_spec(s: Seq<char>) -> Option<(Seq<char>, Seq<char>)> {
    match find_char(s, '"') {
        None => None,
        Some(i) => match find_char(s.subrange(i + 1, s.len() as int), '"') {
            None => None,
            Some(k) => Some((s.subrange(0, i + k + 2), s.subrange(i + k + 2, s.len() as int))),
        },
    }
}

/// Splits off everything up to and including the second quote of `s`, so a
/// quoted literal is taken whole, embedded spaces included.
pub fn take_string(s: &str) -> (r: Option<(String, String)>)
    ensures
        match r {
            Some(p) => take_string_spec(s@) == Some((p.0@, p.1@)),
            None => take_string_spec(s@) is None,
        },
{
    let n = s.unicode_len();
    match str_find_char(s, '"') {
        None => None,
        Some(i) => {
            proof {
                lemma_find_char_props(s@, '"');
            }
            let rest0 = s.substring_char(i + 1, n);
            match str_find_char(rest0, '"') {
                None => None,
                Some(k) => {
                    proof {
                        lemma_find_char_props(rest0@, '"');
                    }
                    let word = String::from_str(s.substring_char(0, i + k + 2));
                    let rest = String::from_str(s.substring_char(i + k + 2, n));
                    Some((word, rest))
                },
            }
        },
    }
}

/// A successful `take_until` leaves strictly less text than it was given.
pub proof fn lemma_take_until_shrinks(s: Seq<char>, until: char)
    ensures
        take_until_spec(s, until) matches Some(p) ==> p.1.len() < s.len() && p.0.len() < s.len(),
{
    lemma_find_char_props(s, until);
}

/// A successful `take_string` takes at least the two quotes and leaves the rest.
pub proof fn lemma_take_string_shrinks(s: Seq<char>)
    ensures
        take_string_spec(s) matches Some(p) ==> p.1.len() < s.len() && 2 <= p.0.len() <= s.len(),
{
    lemma_find_char_props(s, '"');
    match find_char(s, '"') {
        Some(i) => {
            lemma_find_char_props(s.subrange(i + 1, s.len() as int), '"');
        },
        None => {},
    }
}

/// The tail of a slice: everything after its first element.
pub trait Tail<T>: View<V = Seq<T>> {
    fn tail(&self) -> (r: &[T])
        requires
            self@.len() >= 1,
        ensures
            r@ == self@.drop_first(),
    ;
}

impl<T> Tail<T> for [T] {
    fn tail(&self) -> (r: &[T]) {
        let r = slice_subrange(self, 1, self.len());
        proof {
            assert(r@ =~= self@.drop_first());
        }
        r
    }
}

} // verus!
