//! The credential index: a read-only prefix-searchable structure from
//! credential titles to secrets, built once from a snapshot of credential
//! records. A record is indexed only when its title is present as plain text
//! and its secret is present as a protected value; every other record is
//! silently skipped.

use crate::prefix::lex_lt;
use crate::store::{TitleTrie, empty_contents, trie_contents, trie_unbounded};
use vstd::prelude::*;

verus! {

/// A text field of a credential record: absent, plain text, or protected.
/// A protected value carries its already-decoded text.
pub enum StringField {
    Missing,
    Plain(String),
    Protected(String),
}

/// One title/secret pair as the credential store hands it over.
pub struct CredentialRecord {
    pub title: StringField,
    pub secret: StringField,
}

/// Whether a record is taken into the index.
pub open spec fn record_indexed(r: CredentialRecord) -> bool {
    &&& r.title is Plain
    &&& r.secret is Protected
}

/// The title of an indexed record, as a character sequence.
pub open spec fn record_title(r: CredentialRecord) -> Seq<char> {
    match r.title {
        StringField::Plain(t) => t@,
        _ => Seq::empty(),
    }
}

/// The secret of an indexed record, as a character sequence.
pub open spec fn record_secret(r: CredentialRecord) -> Seq<char> {
    match r.secret {
        StringField::Protected(s) => s@,
        _ => Seq::empty(),
    }
}

/// The mapping an index holds after the records `rs` were offered to it in
/// order: each indexed record binds its title to its secret, later records
/// winning on duplicate titles.
pub open spec fn index_of_records(rs: Seq<CredentialRecord>) -> Map<Seq<char>, Seq<char>>
    decreases rs.len(),
{
    if rs.len() == 0 {
        empty_contents()
    } else {
        let m = index_of_records(rs.drop_last());
        if record_indexed(rs.last()) {
            m.insert(record_title(rs.last()), record_secret(rs.last()))
        } else {
            m
        }
    }
}

/// The titles of `m` that start with `prefix`.
pub open spec fn candidate_set(m: Map<Seq<char>, Seq<char>>, prefix: Seq<char>) -> Set<Seq<char>> {
    m.dom().filter(|k: Seq<char>| prefix.is_prefix_of(k))
}

/// Some record among `rs`, at position `i`, is indexed under title `t`.
pub open spec fn indexed_title_at(rs: Seq<CredentialRecord>, i: int, t: Seq<char>) -> bool {
    &&& 0 <= i < rs.len()
    &&& record_indexed(rs[i])
    &&& record_title(rs[i]) == t
}

/// The index binds exactly the titles of its indexed records.
pub proof fn lemma_index_dom(rs: Seq<CredentialRecord>)
    ensures
        forall|t: Seq<char>|
            index_of_records(rs).dom().contains(t) <==> exists|i: int|
                #[trigger] indexed_title_at(rs, i, t),
    decreases rs.len(),
{
    if rs.len() == 0 {
    } else {
        let front = rs.drop_last();
        lemma_index_dom(front);
        assert forall|t: Seq<char>|
            index_of_records(rs).dom().contains(t) <==> exists|i: int|
                #[trigger] indexed_title_at(rs, i, t) by {
            if index_of_records(rs).dom().contains(t) {
                if record_indexed(rs.last()) && record_title(rs.last()) == t {
                    assert(indexed_title_at(rs, rs.len() - 1, t));
                } else {
                    assert(index_of_records(front).dom().contains(t));
                    let i = choose|i: int| indexed_title_at(front, i, t);
                    assert(front[i] == rs[i]);
                    assert(indexed_title_at(rs, i, t));
                }
            }
            if exists|i: int| indexed_title_at(rs, i, t) {
                let i = choose|i: int| indexed_title_at(rs, i, t);
                if i == rs.len() - 1 {
                    assert(index_of_records(rs).dom().contains(t));
                } else {
                    assert(front[i] == rs[i]);
                    assert(indexed_title_at(front, i, t));
                    assert(index_of_records(front).dom().contains(t));
                    assert(index_of_records(rs).dom().contains(t));
                }
            }
        }
    }
}

/// A record without a plain title or without a protected secret is excluded:
/// a title that only such records carry is absent from the index and from
/// every candidate listing.
pub proof fn lemma_skipped_records_absent(rs: Seq<CredentialRecord>, t: Seq<char>)
    requires
        forall|i: int|
            0 <= i < rs.len() ==> !(record_indexed(#[trigger] rs[i]) && record_title(rs[i]) == t),
    ensures
        !index_of_records(rs).dom().contains(t),
        forall|p: Seq<char>| !candidate_set(index_of_records(rs), p).contains(t),
{
    lemma_index_dom(rs);
    assert(forall|i: int| !indexed_title_at(rs, i, t));
}

/// Read-only prefix-searchable mapping from credential titles to secrets.
pub struct CredentialIndex {
    trie: TitleTrie,
}

impl CredentialIndex {
    /// The title-to-secret mapping this index holds.
    pub closed spec fn entries(self) -> Map<Seq<char>, Seq<char>> {
        trie_contents(self.trie)
    }

    /// Builds the index from a snapshot of credential records.
    pub fn build(records: &Vec<CredentialRecord>) -> (r: CredentialIndex)
        ensures
            r.entries() == index_of_records(records@),
    {
        let mut trie = TitleTrie::new();
        let mut i: usize = 0;
        while i < records.len()
            invariant
                i <= records@.len(),
                trie_unbounded(trie),
                trie_contents(trie) == index_of_records(records@.take(i as int)),
            decreases records@.len() - i,
        {
            let rec = &records[i];
            match (&rec.title, &rec.secret) {
                (StringField::Plain(t), StringField::Protected(s)) => {
                    trie.insert(t.clone(), s.clone());
                },
                _ => {},
            }
            proof {
                assert(records@.take(i + 1).drop_last() =~= records@.take(i as int));
                assert(records@.take(i + 1).last() == records@[i as int]);
            }
            i = i + 1;
        }
        proof {
            assert(records@.take(records@.len() as int) =~= records@);
        }
        CredentialIndex { trie }
    }

    /// Looks up a finalized title exactly: the associated secret, or `None`
    /// when the title is absent.
    pub fn lookup_exact(&self, name: &String) -> (r: Option<String>)
        ensures
            r is Some <==> self.entries().dom().contains(name@),
            r is Some ==> r->0@ == self.entries()[name@],
    {
        self.trie.get(name)
    }

    /// All titles that begin with `prefix` (the prefix itself included when
    /// it is a full title), in strictly increasing lexicographic order.
    pub fn lookup_prefix(&self, prefix: &String) -> (r: Vec<String>)
        ensures
            forall|i: int|
                0 <= i < r@.len() ==> self.entries().dom().contains(#[trigger] r@[i]@)
                    && prefix@.is_prefix_of(r@[i]@),
            forall|k: Seq<char>|
                self.entries().dom().contains(k) && prefix@.is_prefix_of(k) ==> exists|i: int|
                    0 <= i < r@.len() && #[trigger] r@[i]@ == k,
            forall|i: int| 0 <= i && i + 1 < r@.len() ==> lex_lt(#[trigger] r@[i]@, r@[i + 1]@),
    {
        self.trie.prefix_keys(prefix)
    }
}

} // verus!
