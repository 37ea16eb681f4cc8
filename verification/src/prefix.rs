//! Longest common prefix of strings: the string-pair core `lcp_util`, the
//! fold `longest_common_prefix`, and the facts that make the typeahead
//! behaviour precise (every candidate starts with the computed prefix, and
//! the prefix cannot be extended by any character).

use vstd::prelude::*;

verus! {

/// Length of the longest common prefix of two character sequences.
pub open spec fn lcp_len(a: Seq<char>, b: Seq<char>) -> nat
    decreases a.len(),
{
    if a.len() == 0 || b.len() == 0 || a[0] != b[0] {
        0
    } else {
        1 + lcp_len(a.skip(1), b.skip(1))
    }
}

/// Longest common prefix of two character sequences.
pub open spec fn lcp2(a: Seq<char>, b: Seq<char>) -> Seq<char> {
    a.subrange(0, lcp_len(a, b) as int)
}

/// Longest common prefix of a non-empty sequence of character sequences,
/// folded pairwise from the left as the executable code computes it.
pub open spec fn lcp_of_seq(ss: Seq<Seq<char>>) -> Seq<char>
    recommends
        ss.len() >= 1,
    decreases ss.len(),
{
    if ss.len() <= 1 {
        ss[0]
    } else {
        lcp2(lcp_of_seq(ss.drop_last()), ss.last())
    }
}

/// Strict lexicographic order on character sequences, by code point; for
/// UTF-8 encoded strings this coincides with byte order.
pub open spec fn lex_lt(a: Seq<char>, b: Seq<char>) -> bool
    decreases a.len(),
{
    if a.len() == 0 {
        b.len() > 0
    } else if b.len() == 0 {
        false
    } else if a[0] == b[0] {
        lex_lt(a.skip(1), b.skip(1))
    } else {
        (a[0] as u32) < (b[0] as u32)
    }
}

/// `p` is a prefix of every element of `ss`.
pub open spec fn common_prefix_of_seq(p: Seq<char>, ss: Seq<Seq<char>>) -> bool {
    forall|i: int| 0 <= i < ss.len() ==> p.is_prefix_of(#[trigger] ss[i])
}

pub proof fn lemma_lcp_len_bounds(a: Seq<char>, b: Seq<char>)
    ensures
        lcp_len(a, b) <= a.len(),
        lcp_len(a, b) <= b.len(),
        forall|j: int| 0 <= j < lcp_len(a, b) ==> a[j] == b[j],
        lcp_len(a, b) < a.len() && lcp_len(a, b) < b.len() ==> a[lcp_len(a, b) as int] != b[lcp_len(a, b) as int],
    decreases a.len(),
{
    if a.len() == 0 || b.len() == 0 || a[0] != b[0] {
    } else {
        lemma_lcp_len_bounds(a.skip(1), b.skip(1));
        assert forall|j: int| 0 <= j < lcp_len(a, b) implies a[j] == b[j] by {
            if j > 0 {
                assert(a.skip(1)[j - 1] == b.skip(1)[j - 1]);
            }
        }
    }
}

/// The common-prefix length is pinned down by its characterisation: agreement
/// up to `i`, and divergence or exhaustion at `i`.
pub proof fn lemma_lcp_len_unique(a: Seq<char>, b: Seq<char>, i: nat)
    requires
        i <= a.len(),
        i <= b.len(),
        forall|j: int| 0 <= j < i ==> a[j] == b[j],
        i == a.len() || i == b.len() || a[i as int] != b[i as int],
    ensures
        i == lcp_len(a, b),
    decreases a.len(),
{
    if i == 0 {
    } else {
        assert(a[0] == b[0]);
        assert forall|j: int| 0 <= j < i - 1 implies a.skip(1)[j] == b.skip(1)[j] by {
            assert(a[j + 1] == b[j + 1]);
        }
        lemma_lcp_len_unique(a.skip(1), b.skip(1), (i - 1) as nat);
    }
}

pub proof fn lemma_lcp2_is_common(a: Seq<char>, b: Seq<char>)
    ensures
        lcp2(a, b).is_prefix_of(a),
        lcp2(a, b).is_prefix_of(b),
{
    lemma_lcp_len_bounds(a, b);
    assert(lcp2(a, b) =~= b.subrange(0, lcp_len(a, b) as int));
}

/// Any common prefix of `a` and `b` is a prefix of their longest common
/// prefix: `lcp2` really is the longest.
pub proof fn lemma_lcp2_is_longest(a: Seq<char>, b: Seq<char>, p: Seq<char>)
    requires
        p.is_prefix_of(a),
        p.is_prefix_of(b),
    ensures
        p.is_prefix_of(lcp2(a, b)),
{
    lemma_lcp_len_bounds(a, b);
    let l = lcp_len(a, b);
    if p.len() > l {
        assert(a[l as int] == p[l as int]);
        assert(b[l as int] == p[l as int]);
    } else {
        assert(p =~= lcp2(a, b).subrange(0, p.len() as int));
    }
}

pub proof fn lemma_prefix_transitive(p: Seq<char>, q: Seq<char>, r: Seq<char>)
    requires
        p.is_prefix_of(q),
        q.is_prefix_of(r),
    ensures
        p.is_prefix_of(r),
{
    assert(p =~= r.subrange(0, p.len() as int));
}

/// Every element of `ss` starts with `lcp_of_seq(ss)`.
pub proof fn lemma_lcp_of_seq_is_common(ss: Seq<Seq<char>>)
    requires
        ss.len() >= 1,
    ensures
        common_prefix_of_seq(lcp_of_seq(ss), ss),
    decreases ss.len(),
{
    if ss.len() == 1 {
        assert(lcp_of_seq(ss).is_prefix_of(ss[0]));
    } else {
        let front = ss.drop_last();
        lemma_lcp_of_seq_is_common(front);
        lemma_lcp2_is_common(lcp_of_seq(front), ss.last());
        assert forall|i: int| 0 <= i < ss.len() implies lcp_of_seq(ss).is_prefix_of(
            #[trigger] ss[i],
        ) by {
            if i < ss.len() - 1 {
                assert(lcp_of_seq(front).is_prefix_of(front[i]));
                lemma_prefix_transitive(lcp_of_seq(ss), lcp_of_seq(front), ss[i]);
            }
        }
    }
}

/// Any common prefix of all elements of `ss` is a prefix of `lcp_of_seq(ss)`.
pub proof fn lemma_lcp_of_seq_is_longest(ss: Seq<Seq<char>>, p: Seq<char>)
    requires
        ss.len() >= 1,
        common_prefix_of_seq(p, ss),
    ensures
        p.is_prefix_of(lcp_of_seq(ss)),
    decreases ss.len(),
{
    if ss.len() == 1 {
        assert(p.is_prefix_of(ss[0]));
    } else {
        let front = ss.drop_last();
        assert forall|i: int| 0 <= i < front.len() implies p.is_prefix_of(#[trigger] front[i]) by {
            assert(p.is_prefix_of(ss[i]));
        }
        lemma_lcp_of_seq_is_longest(front, p);
        assert(p.is_prefix_of(ss[ss.len() - 1]));
        lemma_lcp2_is_longest(lcp_of_seq(front), ss.last(), p);
    }
}

/// The longest common prefix of a one-element collection is that element.
pub proof fn lemma_lcp_singleton(x: Seq<char>)
    ensures
        lcp_of_seq(seq![x]) == x,
{
    assert(seq![x][0] == x);
}

/// The computed prefix is common to all elements, and it is maximal: however
/// it is extended by one more character, at least one element of `ss` no
/// longer starts with the extension.
pub proof fn lemma_lcp_common_and_maximal(ss: Seq<Seq<char>>)
    requires
        ss.len() >= 1,
    ensures
        common_prefix_of_seq(lcp_of_seq(ss), ss),
        forall|c: char| !common_prefix_of_seq(#[trigger] lcp_of_seq(ss).push(c), ss),
{
    lemma_lcp_of_seq_is_common(ss);
    assert forall|c: char| !common_prefix_of_seq(#[trigger] lcp_of_seq(ss).push(c), ss) by {
        if common_prefix_of_seq(lcp_of_seq(ss).push(c), ss) {
            lemma_lcp_of_seq_is_longest(ss, lcp_of_seq(ss).push(c));
            assert(lcp_of_seq(ss).push(c).len() <= lcp_of_seq(ss).len());
            assert(false);
        }
    }
}

/// Longest common prefix of two strings, scanning characters left to right
/// until divergence or exhaustion of the shorter string.
pub fn lcp_util(s1: String, s2: String) -> (r: String)
    ensures
        r@ == lcp2(s1@, s2@),
{
    let a = s1.as_str();
    let b = s2.as_str();
    let alen = a.unicode_len();
    let blen = b.unicode_len();
    let mut i: usize = 0;
    let mut stop: bool = false;
    while !stop
        invariant
            a@ == s1@,
            b@ == s2@,
            alen == s1@.len(),
            blen == s2@.len(),
            i <= alen,
            i <= blen,
            forall|j: int| 0 <= j < i ==> s1@[j] == s2@[j],
            stop ==> (i == alen || i == blen || s1@[i as int] != s2@[i as int]),
        decreases alen - i, (if stop { 0int } else { 1int }),
    {
        if i < alen && i < blen {
            let ca = a.get_char(i);
            let cb = b.get_char(i);
            if ca == cb {
                i = i + 1;
            } else {
                stop = true;
            }
        } else {
            stop = true;
        }
    }
    proof {
        lemma_lcp_len_unique(s1@, s2@, i as nat);
    }
    let r = a.substring_char(0, i);
    r.to_owned()
}

/// Longest common prefix of a non-empty vector of strings, folded pairwise.
pub fn longest_common_prefix(v: &Vec<String>) -> (r: String)
    requires
        v.len() >= 1,
    ensures
        r@ == lcp_of_seq(v@.map_values(|s: String| s@)),
{
    let ghost vs = v@.map_values(|s: String| s@);
    let mut acc = v[0].clone();
    let mut i: usize = 1;
    assert(vs.take(1) =~= seq![vs[0]]);
    while i < v.len()
        invariant
            1 <= i <= v@.len(),
            vs == v@.map_values(|s: String| s@),
            acc@ == lcp_of_seq(vs.take(i as int)),
        decreases v@.len() - i,
    {
        acc = lcp_util(acc, v[i].clone());
        proof {
            assert(vs.take(i + 1).drop_last() =~= vs.take(i as int));
            assert(vs.take(i + 1).last() == vs[i as int]);
        }
        i = i + 1;
    }
    proof {
        assert(vs.take(v@.len() as int) =~= vs);
    }
    acc
}

} // verus!
