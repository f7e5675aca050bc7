//! Runs of equal values: the longest run, and how high each value stacks
//! on the values equal to it just before it. Values are order keys and are
//! compared as the numbers they stand for: a NaN equals nothing, the two
//! zeros are equal.
use vstd::prelude::*;
use crate::key::{is_key_eq, key_eq};

verus! {

/// Whether `s[start .. start + len]` lies inside `s` and holds one value:
/// each after the first equals the first.
pub open spec fn is_run(s: Seq<u64>, start: int, len: int) -> bool {
    &&& 0 <= start
    &&& 0 <= len
    &&& start + len <= s.len()
    &&& forall|j: int| start < j < start + len ==> key_eq(s[start], #[trigger] s[j])
}

/// Whether no run of equal neighbours in `s` is longer than `u32::MAX`.
pub open spec fn runs_fit_u32(s: Seq<u64>) -> bool {
    forall|start: int, k: int| #[trigger] is_run(s, start, k) ==> k <= u32::MAX
}

/// Whether `len` is the length of a longest run of equal neighbours in `s`.
pub open spec fn is_longest_run(s: Seq<u64>, len: int) -> bool {
    &&& exists|start: int| is_run(s, start, len)
    &&& forall|start: int, k: int| #[trigger] is_run(s, start, k) ==> k <= len
}

/// How many values equal to `s[i]` stand right before it, without a
/// different value between.
pub open spec fn stack_level(s: Seq<u64>, i: int) -> nat
    decreases i,
{
    if i <= 0 || i >= s.len() {
        0
    } else if key_eq(s[i - 1], s[i]) {
        stack_level(s, i - 1) + 1
    } else {
        0
    }
}

/// The values from `s[i - stack_level(s, i)]` to `s[i]` form a run.
proof fn lemma_level_run(s: Seq<u64>, i: int)
    requires
        0 <= i < s.len(),
    ensures
        stack_level(s, i) <= i,
        is_run(s, i - stack_level(s, i), stack_level(s, i) + 1int),
    decreases i,
{
    if i > 0 && key_eq(s[i - 1], s[i]) {
        lemma_level_run(s, i - 1);
        let a = i - stack_level(s, i);
        assert forall|j: int| a < j < a + stack_level(s, i) + 1 implies key_eq(s[a], #[trigger] s[j]) by {
            if j < i {
                assert(key_eq(s[a], s[j]));
            } else if a < i - 1 {
                assert(key_eq(s[a], s[i - 1]));
            }
        }
    }
}

/// A run that ends at `s[i]` is at most one longer than the stack below `s[i]`.
proof fn lemma_run_within_level(s: Seq<u64>, start: int, len: int)
    requires
        is_run(s, start, len),
        len >= 1,
    ensures
        len <= stack_level(s, start + len - 1) + 1,
    decreases len,
{
    if len > 1 {
        assert(is_run(s, start, len - 1));
        lemma_run_within_level(s, start, len - 1);
        assert(key_eq(s[start], s[start + len - 1]));
        if len > 2 {
            assert(key_eq(s[start], s[start + len - 2]));
        }
        assert(key_eq(s[start + len - 2], s[start + len - 1]));
    }
}

/// The length of the longest run of equal neighbours in `vals`: in a sorted
/// list, the largest number of times one value occurs. An empty list gives 0.
pub fn max_duplicates(vals: &Vec<u64>) -> (max: u32)
    requires
        runs_fit_u32(vals@),
    ensures
        is_longest_run(vals@, max as int),
{
    let n = vals.len();
    let mut best: u32 = 0;
    let mut current: u32 = 0;
    let mut i: usize = 0;
    assert(is_run(vals@, 0, 0));
    while i < n
        invariant
            n == vals.len(),
            runs_fit_u32(vals@),
            i <= n,
            current <= i,
            current <= best,
            i > 0 ==> current == stack_level(vals@, i - 1) + 1,
            exists|start: int| is_run(vals@, start, best as int),
            forall|start: int, k: int|
                #[trigger] is_run(vals@, start, k) && start + k <= i ==> k <= best,
        decreases n - i,
    {
        proof {
            lemma_level_run(vals@, i as int);
            if i > 0 {
                lemma_level_run(vals@, i - 1);
            }
        }
        if i > 0 && is_key_eq(vals[i - 1], vals[i]) {
            current = current + 1;
        } else {
            current = 1;
        }
        assert(current == stack_level(vals@, i as int) + 1);
        if current > best {
            best = current;
        }
        assert forall|start: int, k: int|
            #[trigger] is_run(vals@, start, k) && start + k <= i + 1 implies k <= best by {
            if start + k == i + 1 && k >= 1 {
                lemma_run_within_level(vals@, start, k);
            }
        }
        i = i + 1;
    }
    best
}

/// For each value, how many equal values stand right before it: the height
/// at which its dot is stacked in a dot plot of the sorted values.
pub fn stack_levels(vals: &Vec<u64>) -> (levels: Vec<usize>)
    ensures
        levels.len() == vals.len(),
        forall|i: int| 0 <= i < vals.len() ==> levels[i] == stack_level(vals@, i),
{
    let n = vals.len();
    let mut levels: Vec<usize> = Vec::new();
    let mut level: usize = 0;
    let mut i: usize = 0;
    while i < n
        invariant
            n == vals.len(),
            i <= n,
            levels.len() == i,
            forall|j: int| 0 <= j < i ==> levels[j] == stack_level(vals@, j),
            i > 0 ==> level == stack_level(vals@, i - 1),
        decreases n - i,
    {
        proof {
            if i > 0 {
                lemma_level_run(vals@, i - 1);
            }
        }
        if i > 0 && is_key_eq(vals[i - 1], vals[i]) {
            level = level + 1;
        } else {
            level = 0;
        }
        levels.push(level);
        i = i + 1;
    }
    levels
}

/// The stack below a value is the longest run of equal values ending just
/// before it: the values from `s[i - stack_level(s, i)]` to `s[i]` are all
/// equal, and no longer run of equal values ends at `s[i]`.
pub proof fn lemma_stack_level_is_run_ending_here(s: Seq<u64>, i: int)
    requires
        0 <= i < s.len(),
    ensures
        is_run(s, i - stack_level(s, i), stack_level(s, i) + 1int),
        forall|k: int| 0 <= k && #[trigger] is_run(s, i - k, k + 1) ==> k <= stack_level(s, i),
{
    lemma_level_run(s, i);
    assert forall|k: int| 0 <= k && #[trigger] is_run(s, i - k, k + 1) implies k <= stack_level(
        s,
        i,
    ) by {
        lemma_run_within_level(s, i - k, k + 1);
    }
}

/// In a non-empty list the tallest stack of equal values holds exactly as
/// many values as the longest run: every stack stays below that length and
/// one reaches it.
pub proof fn lemma_tallest_stack_is_longest_run(s: Seq<u64>, len: int)
    requires
        s.len() > 0,
        is_longest_run(s, len),
    ensures
        forall|i: int| 0 <= i < s.len() ==> stack_level(s, i) < len,
        exists|i: int| 0 <= i < s.len() && stack_level(s, i) + 1 == len,
{
    assert forall|i: int| 0 <= i < s.len() implies stack_level(s, i) < len by {
        lemma_level_run(s, i);
        assert(is_run(s, i - stack_level(s, i), stack_level(s, i) + 1int));
    }
    let start = choose|start: int| is_run(s, start, len);
    assert(is_run(s, 0, 1));
    let last = start + len - 1;
    lemma_run_within_level(s, start, len);
    assert(stack_level(s, last) < len);
    assert(0 <= last < s.len() && stack_level(s, last) + 1 == len);
}

} // verus!
