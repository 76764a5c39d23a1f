//! Verified draining of a `HashSet` into a vector, through the iterator
//! specifications vstd gives the std collections.
use std::collections::HashSet;
use vstd::prelude::*;
use vstd::std_specs::iter::IteratorSpec;

verus! {

broadcast use vstd::std_specs::hash::group_hash_axioms;

/// Advance any specified iterator one step.
fn next_item<I: Iterator>(it: &mut I) -> (r: Option<I::Item>)
    requires
        <I as IteratorSpec>::obeys_prophetic_iter_laws(old(it)),
    ensures
        <I as IteratorSpec>::obeys_prophetic_iter_laws(final(it)),
        <I as IteratorSpec>::remaining(old(it)).len() > 0 ==> <I as IteratorSpec>::remaining(
            final(it),
        ) == <I as IteratorSpec>::remaining(old(it)).drop_first() && r == Some(
            <I as IteratorSpec>::remaining(old(it))[0],
        ),
        <I as IteratorSpec>::remaining(old(it)).len() == 0 ==> <I as IteratorSpec>::remaining(
            final(it),
        ) == <I as IteratorSpec>::remaining(old(it)) && r is None,
{
    it.next()
}

pub fn set_to_vec(s: &HashSet<i64>) -> (r: Vec<i64>)
    ensures
        r@.no_duplicates(),
        r@.to_set() == s@,
        r@.len() == s@.len(),
{
    let mut out: Vec<i64> = Vec::new();
    let mut iter = s.iter();
    let ghost iter0 = iter;
    proof {
        assert(iter.obeys_prophetic_iter_laws());
        assert(iter0.remaining().unref().to_set() == s@);
        assert(iter0.remaining().no_duplicates());
        assert(iter0.remaining().len() == s@.len());
        assert(iter0.remaining().skip(0) =~= iter0.remaining());
    }
    let mut cur = next_item(&mut iter);
    proof {
        assert(iter0.remaining().len() > 0 ==> iter0.remaining().drop_first()
            =~= iter0.remaining().skip(1));
    }
    while cur.is_some()
        invariant
            out@.len() <= iter0.remaining().len(),
            iter0.remaining().len() == s@.len(),
            iter0.remaining().no_duplicates(),
            iter0.remaining().unref().to_set() == s@,
            cur is Some ==> out@.len() < iter0.remaining().len() && cur == Some(
                iter0.remaining()[out@.len() as int],
            ) && iter.remaining() == iter0.remaining().skip(out@.len() as int + 1),
            cur is None ==> out@.len() == iter0.remaining().len(),
            iter.obeys_prophetic_iter_laws(),
            forall|i: int| 0 <= i < out@.len() ==> out@[i] == *iter0.remaining()[i],
        decreases s@.len() - out@.len(),
    {
        let x = cur.unwrap();
        out.push(*x);
        cur = next_item(&mut iter);
        proof {
            assert(iter0.remaining().skip(out@.len() as int).len() > 0
                ==> iter0.remaining().skip(out@.len() as int).drop_first()
                =~= iter0.remaining().skip(out@.len() as int + 1));
            assert(iter0.remaining().skip(out@.len() as int).len() > 0
                ==> iter0.remaining().skip(out@.len() as int)[0]
                == iter0.remaining()[out@.len() as int]);
        }
    }
    proof {
        assert(out@.len() == iter0.remaining().len());
        assert(out@ =~= iter0.remaining().unref());
        assert(out@.to_set() =~= s@);
        assert forall|i: int, j: int| 0 <= i < j < out@.len() implies out@[i] != out@[j] by {
            assert(iter0.remaining()[i] != iter0.remaining()[j]);
        }
    }
    out
}

} // verus!
