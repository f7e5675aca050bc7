//! Sorting order keys into ascending order of the numbers they stand for.
use vstd::prelude::*;
use crate::key::{is_key_lt, is_nan_key, is_zero_key, key_le, key_lt};

verus! {

/// Whether `s` is in ascending order of numbers: each value is at most every
/// later one (so a list of two or more holds no NaN).
pub open spec fn sorted(s: Seq<u64>) -> bool {
    forall|i: int, j: int| 0 <= i < j < s.len() ==> key_le(#[trigger] s[i], #[trigger] s[j])
}

/// Whether a list of two or more values holds no NaN.
pub open spec fn comparable(s: Seq<u64>) -> bool {
    s.len() >= 2 ==> forall|i: int| 0 <= i < s.len() ==> !is_nan_key(#[trigger] s[i])
}

/// The zeros of `s` (`-0.0` and `+0.0`), in their order in `s`.
pub open spec fn zeros(s: Seq<u64>) -> Seq<u64> {
    s.filter(|k: u64| is_zero_key(k))
}

/// Returns the values of `values` in ascending order of their numbers: a
/// sorted list that holds each value as many times as `values` does, with
/// equal numbers in their order in `values` (the only equal numbers with
/// different keys are `-0.0` and `+0.0`). A NaN cannot be ordered, so a
/// list of two or more values must hold none.
pub fn sort_keys(values: &Vec<u64>) -> (out: Vec<u64>)
    requires
        comparable(values@),
    ensures
        sorted(out@),
        out@.to_multiset() == values@.to_multiset(),
        zeros(out@) == zeros(values@),
{
    let n = values.len();
    let mut out: Vec<u64> = Vec::new();
    let mut i: usize = 0;
    assert(out@ == values@.take(0));
    reveal_with_fuel(Seq::filter, 1);
    while i < n
        invariant
            n == values.len(),
            comparable(values@),
            i <= n,
            sorted(out@),
            out@.len() == i,
            n >= 2 ==> forall|j: int| 0 <= j < out@.len() ==> !is_nan_key(#[trigger] out@[j]),
            out@.to_multiset() == values@.take(i as int).to_multiset(),
            zeros(out@) == zeros(values@.take(i as int)),
        decreases n - i,
    {
        let x = values[i];
        let mut p: usize = 0;
        while p < out.len() && !is_key_lt(x, out[p])
            invariant
                p <= out.len(),
                forall|j: int| 0 <= j < p ==> !key_lt(x, #[trigger] out@[j]),
            decreases out.len() - p,
        {
            p = p + 1;
        }
        let ghost before = out@;
        out.insert(p, x);
        assert(out@ == before.insert(p as int, x));
        assert forall|a: int, b: int| 0 <= a < b < out@.len() implies key_le(
            #[trigger] out@[a],
            #[trigger] out@[b],
        ) by {
            if a < p as int && b > p as int {
                assert(out@[a] == before[a]);
                assert(out@[b] == before[b - 1]);
            } else if a < p as int && b == p as int {
                assert(out@[a] == before[a]);
                assert(!key_lt(x, before[a]));
            } else if a == p as int && b > p as int {
                assert(out@[b] == before[b - 1]);
                assert(key_lt(x, before[p as int]));
                if b - 1 > p {
                    assert(key_le(before[p as int], before[b - 1]));
                }
            } else if a > p as int {
                assert(out@[a] == before[a - 1]);
                assert(out@[b] == before[b - 1]);
            } else if b < p as int {
                assert(out@[a] == before[a]);
                assert(out@[b] == before[b]);
            }
        }
        proof {
            vstd::seq_lib::to_multiset_insert(before, p as int, x);
            vstd::seq_lib::to_multiset_build(values@.take(i as int), x);
            let pred = |k: u64| is_zero_key(k);
            let front = before.take(p as int);
            let back = before.skip(p as int);
            assert(before == front + back);
            assert(out@ == front.push(x) + back);
            Seq::filter_distributes_over_add(front, back, pred);
            Seq::filter_distributes_over_add(front.push(x), back, pred);
            front.lemma_filter_push(x, pred);
            values@.take(i as int).lemma_filter_push(x, pred);
            assert(values@.take(i + 1) == values@.take(i as int).push(x));
            if is_zero_key(x) {
                assert forall|j: int| 0 <= j < back.len() implies !pred(#[trigger] back[j]) by {
                    assert(back[j] == before[p + j]);
                    if p + j > p {
                        assert(key_le(before[p as int], before[p + j]));
                    }
                    assert(key_lt(x, before[p as int]));
                }
                back.lemma_all_neg_filter_empty(pred);
                assert(back.filter(pred) =~= Seq::<u64>::empty());
                assert(zeros(out@) =~= zeros(before).push(x));
            } else {
                assert(zeros(out@) =~= zeros(before));
            }
        }
        i = i + 1;
    }
    assert(values@.take(n as int) == values@);
    out
}

} // verus!
