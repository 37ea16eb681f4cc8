//! Trusted boundary around the qp-trie that backs the credential index.
//!
//! The trie belongs to the `qptrie` crate and Verus cannot read it, so it is
//! held in an opaque holder type. Its bindings are named by `trie_contents`,
//! and every trie method the index uses is wrapped in a function whose
//! contract states, over that name, what the crate's code does.

use crate::prefix::lex_lt;
use vstd::prelude::*;

verus! {

/// A qp-trie from credential titles to their secrets.
#[verifier::external_body]
pub struct TitleTrie {
    trie: qptrie::Trie<String, String>,
}

/// The bindings a trie holds: each title, as a character sequence, mapped to
/// its secret.
pub uninterp spec fn trie_contents(t: TitleTrie) -> Map<Seq<char>, Seq<char>>;

/// Whether the trie still has its default height cap, under which an
/// insertion is never refused.
pub uninterp spec fn trie_unbounded(t: TitleTrie) -> bool;

/// The contents of a trie with no bindings at all.
pub open spec fn empty_contents() -> Map<Seq<char>, Seq<char>> {
    Map::empty()
}

impl TitleTrie {
    /// Relies on qptrie::Trie::new: a freshly created trie holds no binding,
    /// and its height cap is the default one, which no insertion can reach.
    #[verifier::external_body]
    pub(crate) fn new() -> (r: TitleTrie)
        ensures
            trie_contents(r) == empty_contents(),
            trie_unbounded(r),
    {
        TitleTrie { trie: qptrie::Trie::new() }
    }

    /// Relies on qptrie::Trie::insert: on a trie with the default height cap
    /// it binds `key` to `val`, replacing any earlier binding of the same key
    /// and leaving every other binding as it was.
    #[verifier::external_body]
    pub(crate) fn insert(&mut self, key: String, val: String)
        requires
            trie_unbounded(*old(self)),
        ensures
            trie_unbounded(*final(self)),
            trie_contents(*final(self)) == trie_contents(*old(self)).insert(key@, val@),
    {
        self.trie.insert(key, val);
    }

    /// Relies on qptrie::Trie::get: the value bound to exactly `key`, or
    /// `None` when no binding carries that key.
    #[verifier::external_body]
    pub(crate) fn get(&self, key: &String) -> (r: Option<String>)
        ensures
            r is Some <==> trie_contents(*self).dom().contains(key@),
            r is Some ==> r->0@ == trie_contents(*self)[key@],
    {
        self.trie.get(key).cloned()
    }

    /// Relies on qptrie::Trie::prefix_iter with include_prefix: it yields
    /// exactly the keys that start with `prefix` (the prefix itself included
    /// when it is a key), and its depth-first walk takes sibling nibbles in
    /// ascending order, so the keys come out in strictly increasing
    /// lexicographic order.
    #[verifier::external_body]
    pub(crate) fn prefix_keys(&self, prefix: &String) -> (r: Vec<String>)
        ensures
            forall|i: int|
                0 <= i < r@.len() ==> trie_contents(*self).dom().contains(#[trigger] r@[i]@)
                    && prefix@.is_prefix_of(r@[i]@),
            forall|k: Seq<char>|
                trie_contents(*self).dom().contains(k) && prefix@.is_prefix_of(k)
                    ==> exists|i: int| 0 <= i < r@.len() && #[trigger] r@[i]@ == k,
            forall|i: int| 0 <= i && i + 1 < r@.len() ==> lex_lt(#[trigger] r@[i]@, r@[i + 1]@),
    {
        self.trie.prefix_iter(prefix).include_prefix().map(|(k, _)| k.to_owned()).collect()
    }
}

} // verus!
