use vstd::prelude::*;

verus! {

broadcast use vstd::seq_lib::group_to_multiset_ensures;

/// A total preorder under which a vector can be sorted. Every processed
/// sequence of the report (damages, heals, events by timestamp; players by
/// name; statistics by the display policy) is sorted through this trait.
pub trait TotalOrdered: Sized {
    spec fn le_spec(&self, other: &Self) -> bool;

    proof fn lemma_total(a: &Self, b: &Self)
        ensures
            a.le_spec(b) || b.le_spec(a),
    ;

    proof fn lemma_trans(a: &Self, b: &Self, c: &Self)
        requires
            a.le_spec(b),
            b.le_spec(c),
        ensures
            a.le_spec(c),
    ;

    fn le(&self, other: &Self) -> (r: bool)
        ensures
            r == self.le_spec(other),
    ;
}

/// Filtering keeps only elements of the given sequence.
pub proof fn lemma_filter_contained<T>(s: Seq<T>, pred: spec_fn(T) -> bool)
    ensures
        forall|i: int| 0 <= i < s.filter(pred).len() ==> s.contains(#[trigger] s.filter(pred)[i]),
    decreases s.len(),
{
    reveal(Seq::filter);
    if s.len() > 0 {
        let dl = s.drop_last();
        lemma_filter_contained(dl, pred);
        assert forall|i: int| 0 <= i < s.filter(pred).len() implies s.contains(
            #[trigger] s.filter(pred)[i],
        ) by {
            if pred(s.last()) && i == s.filter(pred).len() - 1 {
                assert(s.filter(pred)[i] == s.last());
                assert(s[s.len() - 1] == s.last());
            } else {
                assert(s.filter(pred)[i] == dl.filter(pred)[i]);
                assert(dl.contains(dl.filter(pred)[i]));
                let q = choose|q: int| 0 <= q < dl.len() && dl[q] == dl.filter(pred)[i];
                assert(s[q] == dl.filter(pred)[i]);
            }
        }
    }
}

/// Non-decreasing under the trait's order.
pub open spec fn seq_sorted<T: TotalOrdered>(s: Seq<T>) -> bool {
    forall|i: int, j: int| 0 <= i < j < s.len() ==> #[trigger] s[i].le_spec(&s[j])
}

/// Filtering a sorted sequence keeps it sorted.
pub proof fn lemma_filter_sorted<T: TotalOrdered>(s: Seq<T>, pred: spec_fn(T) -> bool)
    requires
        seq_sorted(s),
    ensures
        seq_sorted(s.filter(pred)),
    decreases s.len(),
{
    reveal(Seq::filter);
    if s.len() > 0 {
        let dl = s.drop_last();
        assert forall|i: int, j: int|
            0 <= i < j < dl.len() implies #[trigger] dl[i].le_spec(&dl[j]) by {
            assert(dl[i] == s[i]);
            assert(dl[j] == s[j]);
        }
        lemma_filter_sorted(dl, pred);
        lemma_filter_contained(dl, pred);
        if pred(s.last()) {
            let f = s.filter(pred);
            assert(f == dl.filter(pred).push(s.last()));
            assert forall|i: int, j: int|
                0 <= i < j < f.len() implies #[trigger] f[i].le_spec(&f[j]) by {
                if j < f.len() - 1 {
                    assert(f[i] == dl.filter(pred)[i]);
                    assert(f[j] == dl.filter(pred)[j]);
                } else {
                    assert(f[i] == dl.filter(pred)[i]);
                    assert(dl.contains(f[i]));
                    let q = choose|q: int| 0 <= q < dl.len() && dl[q] == f[i];
                    assert(s[q] == f[i]);
                    assert(s[q].le_spec(&s[s.len() - 1]));
                    assert(f[j] == s.last());
                }
            }
        }
    }
}

/// Sorts by repeatedly moving the first minimal element of what remains
/// to the output.
pub fn sort_total<T: TotalOrdered>(input: Vec<T>) -> (r: Vec<T>)
    ensures
        seq_sorted(r@),
        r@.to_multiset() == input@.to_multiset(),
        r@.len() == input@.len(),
{
    let ghost orig = input@;
    let mut rest = input;
    let mut out: Vec<T> = Vec::new();
    proof {
        assert(out@.to_multiset().add(rest@.to_multiset()) =~= orig.to_multiset());
    }
    while rest.len() > 0
        invariant
            seq_sorted(out@),
            forall|i: int, j: int|
                0 <= i < out@.len() && 0 <= j < rest@.len()
                    ==> #[trigger] out@[i].le_spec(&rest@[j]),
            out@.to_multiset().add(rest@.to_multiset()) == orig.to_multiset(),
            out@.len() + rest@.len() == orig.len(),
        decreases rest@.len(),
    {
        let mut m: usize = 0;
        let mut k: usize = 1;
        proof {
            T::lemma_total(&rest@[0], &rest@[0]);
        }
        while k < rest.len()
            invariant
                m < k,
                k <= rest@.len(),
                rest@.len() > 0,
                forall|j: int| 0 <= j < k ==> #[trigger] rest@[m as int].le_spec(&rest@[j]),
            decreases rest@.len() - k,
        {
            if !rest[m].le(&rest[k]) {
                proof {
                    T::lemma_total(&rest@[m as int], &rest@[k as int]);
                    assert forall|j: int| 0 <= j < k implies #[trigger] rest@[k as int].le_spec(&rest@[j]) by {
                        T::lemma_trans(&rest@[k as int], &rest@[m as int], &rest@[j]);
                    }
                }
                m = k;
            }
            proof {
                T::lemma_total(&rest@[k as int], &rest@[k as int]);
            }
            k = k + 1;
        }
        let ghost rest_before = rest@;
        let x = rest.remove(m);
        proof {
            assert forall|j: int| 0 <= j < rest@.len() implies #[trigger] x.le_spec(&rest@[j]) by {
                if j < m {
                    assert(rest@[j] == rest_before[j]);
                } else {
                    assert(rest@[j] == rest_before[j + 1]);
                }
            }
            assert(rest_before.to_multiset().contains(x));
        }
        let ghost out_before = out@;
        out.push(x);
        proof {
            assert(out@ =~= out_before + seq![x]);
            assert forall|i: int, j: int|
                0 <= i < j < out@.len() implies #[trigger] out@[i].le_spec(&out@[j]) by {
                if j < out@.len() - 1 {
                    assert(out_before[i].le_spec(&out_before[j]));
                } else {
                    assert(rest_before.to_multiset().count(x) > 0);
                }
            }
            assert(out@.to_multiset().add(rest@.to_multiset()) =~= orig.to_multiset());
        }
    }
    proof {
        assert(rest@.to_multiset().len() == 0);
        assert(out@.to_multiset() =~= out@.to_multiset().add(rest@.to_multiset()));
    }
    out
}

} // verus!
