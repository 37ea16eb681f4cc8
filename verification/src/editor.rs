//! The line editor and the typeahead resolver.
//!
//! The editor consumes one raw input byte at a time: newline finalizes the
//! buffer, delete removes the last character (a no-op on an empty buffer),
//! horizontal tab resolves the buffer against the credential index, and any
//! other character is appended. The resolver either extends the buffer to
//! the longest common prefix of the candidate titles or reports that the
//! candidate set must be listed.

use crate::index::{CredentialIndex, candidate_set};
use crate::prefix::{lcp_of_seq, longest_common_prefix};
use crate::prefix::{lemma_lcp_of_seq_is_common, lemma_lcp_of_seq_is_longest};
use vstd::prelude::*;

verus! {

/// Relies on String::push: appends the character to the end of the string.
pub assume_specification[ String::push ](s: &mut String, ch: char)
    ensures
        final(s)@ == old(s)@.push(ch),
;

/// Relies on String::pop: removes and returns the last character, or returns
/// `None` and leaves the string as it was when it is empty.
pub assume_specification[ String::pop ](s: &mut String) -> (r: Option<char>)
    ensures
        old(s)@.len() == 0 ==> final(s)@ == old(s)@ && r is None,
        old(s)@.len() > 0 ==> final(s)@ == old(s)@.drop_last() && r == Some(old(s)@.last()),
;

/// `p` is a prefix of every member of `c`.
pub open spec fn common_prefix_of_all(p: Seq<char>, c: Set<Seq<char>>) -> bool {
    forall|k: Seq<char>| c.contains(k) ==> p.is_prefix_of(k)
}

/// `l` is the longest common prefix of the members of `c`.
pub open spec fn is_lcp_of(l: Seq<char>, c: Set<Seq<char>>) -> bool {
    &&& common_prefix_of_all(l, c)
    &&& forall|p: Seq<char>| common_prefix_of_all(p, c) ==> p.len() <= l.len()
}

/// What the typeahead resolver returns for a buffer, over the index
/// contents `m`: with no candidate the buffer is unchanged and nothing is
/// listed; otherwise the result is the longest common prefix of the
/// candidates, and the candidates are listed exactly when that prefix is the
/// buffer itself.
pub open spec fn typeahead_post(
    m: Map<Seq<char>, Seq<char>>,
    prefix: Seq<char>,
    out: Seq<char>,
    listed: bool,
) -> bool {
    let c = candidate_set(m, prefix);
    if c.is_empty() {
        out == prefix && !listed
    } else {
        is_lcp_of(out, c) && (listed <==> out == prefix)
    }
}

/// Resolves the current buffer against the index: the new buffer, and
/// whether the caller must display the candidate listing.
pub fn typeahead(index: &CredentialIndex, prefix: &String) -> (r: (String, bool))
    ensures
        typeahead_post(index.entries(), prefix@, r.0@, r.1),
{
    let ghost c = candidate_set(index.entries(), prefix@);
    let m = index.lookup_prefix(prefix);
    let ghost vs = m@.map_values(|s: String| s@);
    proof {
        assert forall|k: Seq<char>| c.contains(k) implies exists|i: int|
            0 <= i < m@.len() && #[trigger] m@[i]@ == k by {
            assert(index.entries().dom().contains(k) && prefix@.is_prefix_of(k));
        }
        assert forall|i: int| 0 <= i < m@.len() implies c.contains(#[trigger] m@[i]@) by {
            assert(index.entries().dom().contains(m@[i]@) && prefix@.is_prefix_of(m@[i]@));
        }
    }
    if m.len() == 0 {
        proof {
            assert forall|k: Seq<char>| !c.contains(k) by {
                if c.contains(k) {
                    let i = choose|i: int| 0 <= i < m@.len() && #[trigger] m@[i]@ == k;
                }
            }
            assert(c =~= Set::empty());
        }
        return (prefix.clone(), false);
    }
    let lcp = longest_common_prefix(&m);
    proof {
        assert(c.contains(m@[0]@));
        assert(!c.is_empty());
        lemma_lcp_of_seq_is_common(vs);
        assert forall|k: Seq<char>| c.contains(k) implies lcp@.is_prefix_of(k) by {
            let i = choose|i: int| 0 <= i < m@.len() && #[trigger] m@[i]@ == k;
            assert(vs[i] == m@[i]@);
            assert(lcp_of_seq(vs).is_prefix_of(vs[i]));
        }
        assert forall|p: Seq<char>| common_prefix_of_all(p, c) implies p.len() <= lcp@.len() by {
            assert forall|i: int| 0 <= i < vs.len() implies p.is_prefix_of(#[trigger] vs[i]) by {
                assert(c.contains(m@[i]@));
                assert(vs[i] == m@[i]@);
            }
            lemma_lcp_of_seq_is_longest(vs, p);
        }
        assert(is_lcp_of(lcp@, c));
    }
    if lcp.eq(prefix) {
        (prefix.clone(), true)
    } else {
        (lcp, false)
    }
}

/// The longest common prefix of a non-empty candidate set is unique.
pub proof fn lemma_lcp_of_set_unique(c: Set<Seq<char>>, l1: Seq<char>, l2: Seq<char>)
    requires
        !c.is_empty(),
        is_lcp_of(l1, c),
        is_lcp_of(l2, c),
    ensures
        l1 == l2,
{
    assert(exists|k: Seq<char>| c.contains(k)) by {
        if !(exists|k: Seq<char>| c.contains(k)) {
            assert(c =~= Set::empty());
        }
    }
    let k = choose|k: Seq<char>| c.contains(k);
    assert(l1.is_prefix_of(k));
    assert(l2.is_prefix_of(k));
    assert(l1.len() == l2.len());
    assert(l1 =~= l2);
}

/// On one index and one buffer the typeahead contract admits a single
/// outcome: the resolver is a function of its inputs.
pub proof fn lemma_typeahead_deterministic(
    m: Map<Seq<char>, Seq<char>>,
    prefix: Seq<char>,
    out1: Seq<char>,
    listed1: bool,
    out2: Seq<char>,
    listed2: bool,
)
    requires
        typeahead_post(m, prefix, out1, listed1),
        typeahead_post(m, prefix, out2, listed2),
    ensures
        out1 == out2,
        listed1 == listed2,
{
    let c = candidate_set(m, prefix);
    if !c.is_empty() {
        lemma_lcp_of_set_unique(c, out1, out2);
    }
}

/// Typeahead is idempotent at a true boundary: when a call returns the
/// buffer unchanged, a further call on the same index and buffer returns the
/// same unchanged buffer with the same listing decision.
pub proof fn lemma_typeahead_idempotent(
    m: Map<Seq<char>, Seq<char>>,
    prefix: Seq<char>,
    out1: Seq<char>,
    listed1: bool,
    out2: Seq<char>,
    listed2: bool,
)
    requires
        typeahead_post(m, prefix, out1, listed1),
        out1 == prefix,
        typeahead_post(m, prefix, out2, listed2),
    ensures
        out2 == prefix,
        listed2 == listed1,
{
    lemma_typeahead_deterministic(m, prefix, out1, listed1, out2, listed2);
}

/// One line-editor transition, given the current buffer and one raw input
/// byte decoded as a character: newline finalizes the buffer; delete removes
/// the last character and is a no-op on an empty buffer; horizontal tab
/// resolves the buffer through the typeahead contract; anything else is
/// appended.
pub open spec fn step_post(
    m: Map<Seq<char>, Seq<char>>,
    buf: Seq<char>,
    byte: u8,
    out: Seq<char>,
    done: bool,
    listed: bool,
) -> bool {
    let c = byte as char;
    if c == '\n' {
        done && out == buf && !listed
    } else if c == '\u{7f}' {
        !done && !listed && out == (if buf.len() == 0 { buf } else { buf.drop_last() })
    } else if c == '\t' {
        !done && typeahead_post(m, buf, out, listed)
    } else {
        !done && !listed && out == buf.push(c)
    }
}

/// What one editor transition produced: the new buffer, whether the buffer
/// was finalized, and whether the candidate listing must be displayed.
pub struct StepOutcome {
    pub buffer: String,
    pub done: bool,
    pub listed: bool,
}

/// Feeds one raw input byte to the line editor.
pub fn step(index: &CredentialIndex, buffer: String, byte: u8) -> (out: StepOutcome)
    ensures
        step_post(index.entries(), buffer@, byte, out.buffer@, out.done, out.listed),
{
    let c = byte as char;
    if c == '\n' {
        StepOutcome { buffer, done: true, listed: false }
    } else if c == '\u{7f}' {
        let mut b = buffer;
        b.pop();
        StepOutcome { buffer: b, done: false, listed: false }
    } else if c == '\t' {
        let r = typeahead(index, &buffer);
        StepOutcome { buffer: r.0, done: false, listed: r.1 }
    } else {
        let mut b = buffer;
        b.push(c);
        StepOutcome { buffer: b, done: false, listed: false }
    }
}

} // verus!
