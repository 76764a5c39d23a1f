//! Stable ordering of rows by an integer rank.
//!
//! The stores keep their rows in insertion order and sort at read time.
//! A row is represented here by a pair of its rank and its index in the
//! backing vector; sorting such pairs by rank, stably, reproduces the
//! ordering the read views promise.

use vstd::prelude::*;

verus! {

/// A rank paired with the index of the row it belongs to.
pub type Ranked = (i64, usize);

/// Insert `x` into the already-sorted `s`, after every element whose rank
/// is at most `x`'s rank.
pub open spec fn insert_ranked(s: Seq<Ranked>, x: Ranked) -> Seq<Ranked>
    decreases s.len(),
{
    if s.len() == 0 {
        seq![x]
    } else if x.0 < s.last().0 {
        insert_ranked(s.drop_last(), x).push(s.last())
    } else {
        s.push(x)
    }
}

/// Stable insertion sort by rank: of two elements with equal ranks, the one
/// earlier in the input stays earlier in the result.
pub open spec fn sort_ranked(s: Seq<Ranked>) -> Seq<Ranked>
    decreases s.len(),
{
    if s.len() == 0 {
        Seq::empty()
    } else {
        insert_ranked(sort_ranked(s.drop_last()), s.last())
    }
}

/// Ranks appear in nondecreasing order.
pub open spec fn ranks_sorted(s: Seq<Ranked>) -> bool {
    forall|i: int, j: int| 0 <= i < j < s.len() ==> s[i].0 <= s[j].0
}

proof fn lemma_insert_ranked_props(s: Seq<Ranked>, x: Ranked)
    requires
        ranks_sorted(s),
    ensures
        ranks_sorted(insert_ranked(s, x)),
        insert_ranked(s, x).to_multiset() == s.to_multiset().insert(x),
        insert_ranked(s, x).len() == s.len() + 1,
    decreases s.len(),
{
    broadcast use vstd::seq_lib::group_seq_properties;

    if s.len() == 0 {
        assert(seq![x].to_multiset() =~= s.to_multiset().insert(x)) by {
            s.to_multiset_ensures();
            assert(seq![x] =~= s.push(x));
        }
    } else if x.0 < s.last().0 {
        let d = s.drop_last();
        assert(ranks_sorted(d));
        lemma_insert_ranked_props(d, x);
        let t = insert_ranked(d, x);
        t.to_multiset_ensures();
        d.to_multiset_ensures();
        assert forall|i: int| 0 <= i < t.len() implies t[i].0 <= s.last().0 by {
            assert(t.contains(t[i]));
            assert(t.to_multiset().count(t[i]) > 0);
            if t[i] != x {
                assert(d.to_multiset().count(t[i]) > 0);
                assert(d.contains(t[i]));
                let k = choose|k: int| 0 <= k < d.len() && d[k] == t[i];
                assert(s[k] == t[i]);
            }
        }
        assert(ranks_sorted(t.push(s.last())));
        assert(t.push(s.last()).to_multiset() == t.to_multiset().insert(s.last()));
        assert(d.push(s.last()) =~= s);
        assert(d.push(s.last()).to_multiset() == d.to_multiset().insert(s.last()));
        assert(t.push(s.last()).to_multiset() =~= s.to_multiset().insert(x));
    } else {
        s.to_multiset_ensures();
        assert(s.push(x).to_multiset() == s.to_multiset().insert(x));
    }
}

/// What the sort yields: the same rows, with ranks in nondecreasing order.
pub proof fn lemma_sort_ranked_props(s: Seq<Ranked>)
    ensures
        ranks_sorted(sort_ranked(s)),
        sort_ranked(s).to_multiset() == s.to_multiset(),
        sort_ranked(s).len() == s.len(),
    decreases s.len(),
{
    if s.len() == 0 {
        assert(s =~= Seq::<Ranked>::empty());
        assert(sort_ranked(s).to_multiset() == s.to_multiset());
    } else {
        let d = s.drop_last();
        lemma_sort_ranked_props(d);
        lemma_insert_ranked_props(sort_ranked(d), s.last());
        d.to_multiset_ensures();
        assert(d.push(s.last()) =~= s);
        assert(d.push(s.last()).to_multiset() == d.to_multiset().insert(s.last()));
        assert(sort_ranked(s).to_multiset() == sort_ranked(d).to_multiset().insert(s.last()));
        assert(sort_ranked(d).to_multiset() == d.to_multiset());
        assert(sort_ranked(d).to_multiset().insert(s.last()) =~= d.to_multiset().insert(
            s.last(),
        ));
        assert(s.to_multiset() == d.to_multiset().insert(s.last()));
        assert(sort_ranked(s).to_multiset() =~= s.to_multiset());
    }
}

/// Where the found position splits a sorted sequence, `insert_ranked`
/// coincides with positional insertion.
proof fn lemma_insert_ranked_at(s: Seq<Ranked>, x: Ranked, j: int)
    requires
        ranks_sorted(s),
        0 <= j <= s.len(),
        forall|k: int| j <= k < s.len() ==> x.0 < s[k].0,
        j > 0 ==> s[j - 1].0 <= x.0,
    ensures
        insert_ranked(s, x) == s.insert(j, x),
    decreases s.len(),
{
    if s.len() == 0 {
        assert(insert_ranked(s, x) =~= s.insert(0, x));
    } else if x.0 < s.last().0 {
        assert(j < s.len());
        lemma_insert_ranked_at(s.drop_last(), x, j);
        assert(insert_ranked(s.drop_last(), x).push(s.last()) =~= s.insert(j, x));
    } else {
        assert(j == s.len());
        assert(s.push(x) =~= s.insert(j, x));
    }
}

/// Sort pairs of rank and row index by rank, keeping the relative order of
/// pairs with equal ranks.
pub fn sort_pairs(input: &Vec<Ranked>) -> (r: Vec<Ranked>)
    ensures
        r@ == sort_ranked(input@),
{
    let mut out: Vec<Ranked> = Vec::new();
    for i in 0..input.len()
        invariant
            out@ == sort_ranked(input@.take(i as int)),
            ranks_sorted(out@),
    {
        let x = input[i];
        let mut j: usize = out.len();
        while j > 0 && x.0 < out[j - 1].0
            invariant
                0 <= j <= out.len(),
                ranks_sorted(out@),
                forall|k: int| j <= k < out.len() ==> x.0 < out@[k].0,
            decreases j,
        {
            j = j - 1;
        }
        proof {
            lemma_insert_ranked_at(out@, x, j as int);
            assert(input@.take(i + 1).drop_last() =~= input@.take(i as int));
            assert(input@.take(i + 1).last() == x);
            lemma_sort_ranked_props(input@.take(i + 1));
        }
        out.insert(j, x);
    }
    proof {
        assert(input@.take(input@.len() as int) =~= input@);
    }
    out
}

} // verus!
