//! The five-number summary of a list of values, and the values that lie
//! outside the box plot's fences.
use vstd::prelude::*;
use crate::key::{is_key_le, is_key_lt, is_nan_key, key_le, key_lt, ZERO_KEY};
use crate::sort::{comparable, sort_keys, sorted, zeros};

verus! {

/// Where a statistic of the sorted values is found.
#[derive(Clone, Copy, Debug, PartialEq, Eq, Structural)]
pub enum Quantile {
    /// The arithmetic mean of the values.
    Mean,
    /// The smallest value.
    Min,
    /// The largest value.
    Max,
    /// The sorted value at this index.
    At(usize),
    /// Halfway between the sorted values at these two indices.
    Between(usize, usize),
}

/// Where the median of `n` sorted values stands. With `m = (n - 1) / 2`:
/// fewer than three values take the mean; when `m` has a fractional part the
/// median lies halfway between the values at `m`'s floor and the next index;
/// otherwise it is the value at `m`.
pub open spec fn spec_median_position(n: int) -> Quantile {
    if n < 3 {
        Quantile::Mean
    } else if (n - 1) % 2 != 0 {
        Quantile::Between(((n - 1) / 2) as usize, ((n - 1) / 2 + 1) as usize)
    } else {
        Quantile::At(((n - 1) / 2) as usize)
    }
}

/// Where the lower quartile of `n` sorted values stands: at `m - m / 2`,
/// that is `(n - 1) / 4`, with `m = (n - 1) / 2`. Fewer than three values
/// take the smallest value; a fractional position lies halfway between the
/// values at its floor and the next index.
pub open spec fn spec_lower_quartile_position(n: int) -> Quantile {
    if n < 3 {
        Quantile::Min
    } else if (n - 1) % 4 != 0 {
        Quantile::Between(((n - 1) / 4) as usize, ((n - 1) / 4 + 1) as usize)
    } else {
        Quantile::At(((n - 1) / 4) as usize)
    }
}

/// Where the upper quartile of `n` sorted values stands: at `m + m / 2`,
/// that is `3 (n - 1) / 4`, with `m = (n - 1) / 2`. Fewer than three values
/// take the largest value; a fractional position lies halfway between the
/// values at its floor and the next index.
pub open spec fn spec_upper_quartile_position(n: int) -> Quantile {
    if n < 3 {
        Quantile::Max
    } else if (n - 1) % 4 != 0 {
        Quantile::Between((3 * (n - 1) / 4) as usize, (3 * (n - 1) / 4 + 1) as usize)
    } else {
        Quantile::At((3 * (n - 1) / 4) as usize)
    }
}

/// Computes where the median of `n` sorted values stands.
pub fn median_position(n: usize) -> (q: Quantile)
    ensures
        q == spec_median_position(n as int),
{
    if n < 3 {
        Quantile::Mean
    } else if (n - 1) % 2 != 0 {
        Quantile::Between((n - 1) / 2, (n - 1) / 2 + 1)
    } else {
        Quantile::At((n - 1) / 2)
    }
}

/// Computes where the lower quartile of `n` sorted values stands.
pub fn lower_quartile_position(n: usize) -> (q: Quantile)
    ensures
        q == spec_lower_quartile_position(n as int),
{
    if n < 3 {
        Quantile::Min
    } else if (n - 1) % 4 != 0 {
        Quantile::Between((n - 1) / 4, (n - 1) / 4 + 1)
    } else {
        Quantile::At((n - 1) / 4)
    }
}

/// Computes where the upper quartile of `n` sorted values stands.
pub fn upper_quartile_position(n: usize) -> (q: Quantile)
    ensures
        q == spec_upper_quartile_position(n as int),
{
    if n < 3 {
        Quantile::Max
    } else {
        let k = n - 1;
        let pos = k / 4 * 3 + (k % 4) * 3 / 4;
        assert(pos == 3 * k / 4) by (nonlinear_arith)
            requires
                pos == k / 4 * 3 + (k % 4) * 3 / 4,
        ;
        if k % 4 != 0 {
            Quantile::Between(pos, pos + 1)
        } else {
            Quantile::At(pos)
        }
    }
}

/// Whether `v` lies strictly below `fence`, as numbers. A NaN compares with
/// nothing, so every comparison with a NaN fence (or value) is false.
pub open spec fn below(v: u64, fence: u64) -> bool {
    key_lt(v, fence)
}

/// Whether `v` lies strictly above `fence`, as numbers.
pub open spec fn above(v: u64, fence: u64) -> bool {
    key_lt(fence, v)
}

/// Whether `v` lies at or above `fence`, as numbers.
pub open spec fn at_least(v: u64, fence: u64) -> bool {
    key_le(fence, v)
}

/// Whether `v` lies at or below `fence`, as numbers.
pub open spec fn at_most(v: u64, fence: u64) -> bool {
    key_le(v, fence)
}

/// The first of `s[i..]` that lies at or above `fence`, if any.
pub open spec fn first_at_least(s: Seq<u64>, fence: u64, i: int) -> Option<u64>
    decreases s.len() - i,
{
    if i < 0 || i >= s.len() {
        None
    } else if at_least(s[i], fence) {
        Some(s[i])
    } else {
        first_at_least(s, fence, i + 1)
    }
}

/// The last of `s[..j]` that lies at or below `fence`, if any.
pub open spec fn last_at_most(s: Seq<u64>, fence: u64, j: int) -> Option<u64>
    decreases j,
{
    if j <= 0 || j > s.len() {
        None
    } else if at_most(s[j - 1], fence) {
        Some(s[j - 1])
    } else {
        last_at_most(s, fence, j - 1)
    }
}

/// How many values from `s[i]` on lie below `fence` before the first that
/// does not.
pub open spec fn leading_below(s: Seq<u64>, fence: u64, i: int) -> nat
    decreases s.len() - i,
{
    if 0 <= i < s.len() && below(s[i], fence) {
        1 + leading_below(s, fence, i + 1)
    } else {
        0
    }
}

/// How many values of `s[..j]`, counted from its end, lie above `fence`
/// before the first that does not.
pub open spec fn trailing_above(s: Seq<u64>, fence: u64, j: int) -> nat
    decreases j,
{
    if 0 < j <= s.len() && above(s[j - 1], fence) {
        1 + trailing_above(s, fence, j - 1)
    } else {
        0
    }
}

/// A summary of a list of values (each the order key of a number): the
/// values in ascending order, the smallest and largest, and where the
/// median and the quartiles are found among them.
pub struct PointSummery {
    pub min: u64,
    pub max: u64,
    pub median: Quantile,
    pub q1: Quantile,
    pub q3: Quantile,
    pub values: Vec<u64>,
}

impl PointSummery {
    /// A summary as `create` makes it: sorted values (so no NaN among two
    /// or more), their ends as minimum and maximum (`+0.0` for no values),
    /// and the positions of the median and the quartiles for their number.
    pub open spec fn wf(&self) -> bool {
        let s = self.values@;
        &&& sorted(s)
        &&& comparable(s)
        &&& s.len() == 0 ==> self.min == ZERO_KEY && self.max == ZERO_KEY
        &&& s.len() > 0 ==> self.min == s[0] && self.max == s[s.len() - 1]
        &&& self.median == spec_median_position(s.len() as int)
        &&& self.q1 == spec_lower_quartile_position(s.len() as int)
        &&& self.q3 == spec_upper_quartile_position(s.len() as int)
    }

    /// Summarises `values`: sorts them (keeping equal numbers in their
    /// order), takes the first and the last as minimum and maximum (`+0.0`
    /// when there are none) and places the median and the quartiles for
    /// their number. Two or more values cannot be sorted if one is a NaN.
    pub fn create(values: Vec<u64>) -> (summary: Self)
        requires
            comparable(values@),
        ensures
            summary.wf(),
            summary.values@.to_multiset() == values@.to_multiset(),
            zeros(summary.values@) == zeros(values@),
    {
        let sorted_values = sort_keys(&values);
        proof {
            vstd::seq_lib::to_multiset_len(values@);
            vstd::seq_lib::to_multiset_len(sorted_values@);
            if sorted_values@.len() >= 2 {
                assert forall|i: int| 0 <= i < sorted_values@.len() implies !is_nan_key(
                    #[trigger] sorted_values@[i],
                ) by {
                    if i == 0 {
                        assert(key_le(sorted_values@[0], sorted_values@[1]));
                    } else {
                        assert(key_le(sorted_values@[0], sorted_values@[i]));
                    }
                }
            }
        }
        let n = sorted_values.len();
        let (min, max) = if n == 0 {
            (ZERO_KEY, ZERO_KEY)
        } else {
            (sorted_values[0], sorted_values[n - 1])
        };
        PointSummery {
            min,
            max,
            median: median_position(n),
            q1: lower_quartile_position(n),
            q3: upper_quartile_position(n),
            values: sorted_values,
        }
    }

    /// The sorted values that a quantile is read from: the value at its
    /// index twice, the two values it lies between, the minimum or the
    /// maximum twice; `None` for the mean, which is no value of the list.
    pub fn quantile_keys(&self, q: Quantile) -> (r: Option<(u64, u64)>)
        requires
            q matches Quantile::At(i) ==> i < self.values.len(),
            q matches Quantile::Between(i, j) ==> i < self.values.len() && j < self.values.len(),
        ensures
            r == (match q {
                Quantile::Mean => None,
                Quantile::Min => Some((self.min, self.min)),
                Quantile::Max => Some((self.max, self.max)),
                Quantile::At(i) => Some((self.values@[i as int], self.values@[i as int])),
                Quantile::Between(i, j) => Some((self.values@[i as int], self.values@[j as int])),
            }),
    {
        match q {
            Quantile::Mean => None,
            Quantile::Min => Some((self.min, self.min)),
            Quantile::Max => Some((self.max, self.max)),
            Quantile::At(i) => Some((self.values[i], self.values[i])),
            Quantile::Between(i, j) => Some((self.values[i], self.values[j])),
        }
    }

    /// The bounds of the values that are not outliers, as
    /// `range_excluding_outliers` computes them.
    pub open spec fn spec_range_excluding_outliers(
        &self,
        lower_fence: u64,
        upper_fence: u64,
    ) -> (u64, u64) {
        let s = self.values@;
        (
            if above(self.min, lower_fence) {
                self.min
            } else {
                match first_at_least(s, lower_fence, 0) {
                    Some(v) => v,
                    None => self.min,
                }
            },
            if below(self.max, upper_fence) {
                self.max
            } else {
                match last_at_most(s, upper_fence, s.len() as int) {
                    Some(v) => v,
                    None => self.max,
                }
            },
        )
    }

    /// The range of the values between the fences: the minimum when it lies
    /// above the lower fence, else the first value at or above that fence
    /// (the minimum if none is); the maximum when it lies below the upper
    /// fence, else the last value at or below that fence (the maximum if
    /// none is).
    pub fn range_excluding_outliers(&self, lower_fence: u64, upper_fence: u64) -> (r: (u64, u64))
        ensures
            r == self.spec_range_excluding_outliers(lower_fence, upper_fence),
    {
        let n = self.values.len();
        let low = if is_key_lt(lower_fence, self.min) {
            self.min
        } else {
            let mut i: usize = 0;
            let mut found: Option<u64> = None;
            while i < n
                invariant_except_break
                    found is None,
                invariant
                    n == self.values.len(),
                    i <= n,
                    first_at_least(self.values@, lower_fence, 0)
                        == first_at_least(self.values@, lower_fence, i as int),
                ensures
                    found == first_at_least(self.values@, lower_fence, 0),
                decreases n - i,
            {
                let v = self.values[i];
                let hit = is_key_le(lower_fence, v);
                if hit {
                    found = Some(v);
                    break;
                }
                i = i + 1;
            }
            match found {
                Some(v) => v,
                None => self.min,
            }
        };
        let high = if is_key_lt(self.max, upper_fence) {
            self.max
        } else {
            let mut j: usize = n;
            let mut found: Option<u64> = None;
            while j > 0
                invariant_except_break
                    found is None,
                invariant
                    n == self.values.len(),
                    j <= n,
                    last_at_most(self.values@, upper_fence, n as int)
                        == last_at_most(self.values@, upper_fence, j as int),
                ensures
                    found == last_at_most(self.values@, upper_fence, n as int),
                decreases j,
            {
                let v = self.values[j - 1];
                let hit = is_key_le(v, upper_fence);
                if hit {
                    found = Some(v);
                    break;
                }
                j = j - 1;
            }
            match found {
                Some(v) => v,
                None => self.max,
            }
        };
        (low, high)
    }

    /// The outliers, as `outliers` lists them.
    pub open spec fn spec_outliers(&self, lower_fence: u64, upper_fence: u64) -> Seq<u64> {
        let s = self.values@;
        let n = s.len() as int;
        if above(self.min, lower_fence) && below(self.max, upper_fence) {
            Seq::empty()
        } else {
            let low = if below(self.min, lower_fence) {
                s.take(leading_below(s, lower_fence, 0) as int)
            } else {
                Seq::empty()
            };
            let high = if above(self.max, upper_fence) {
                s.subrange(n - trailing_above(s, upper_fence, n), n).reverse()
            } else {
                Seq::empty()
            };
            low + high
        }
    }

    /// The values beyond the fences. None when the minimum lies above the
    /// lower fence and the maximum below the upper one. Otherwise, when the
    /// minimum lies below the lower fence, the leading values below it, in
    /// order; then, when the maximum lies above the upper fence, the
    /// trailing values above it, from the last one backwards.
    pub fn outliers(&self, lower_fence: u64, upper_fence: u64) -> (res: Vec<u64>)
        ensures
            res@ == self.spec_outliers(lower_fence, upper_fence),
    {
        let ghost s = self.values@;
        let n = self.values.len();
        if is_key_lt(lower_fence, self.min) && is_key_lt(self.max, upper_fence) {
            return Vec::new();
        }
        let mut res: Vec<u64> = Vec::new();
        if is_key_lt(self.min, lower_fence) {
            let mut i: usize = 0;
            proof {
                lemma_leading_below_bound(s, lower_fence, 0);
            }
            while i < n && is_key_lt(self.values[i], lower_fence)
                invariant
                    n == self.values.len(),
                    s == self.values@,
                    i <= n,
                    res@ == s.take(i as int),
                    leading_below(s, lower_fence, 0) == i + leading_below(s, lower_fence, i as int),
                decreases n - i,
            {
                res.push(self.values[i]);
                i = i + 1;
            }
        }
        let ghost low = res@;
        assert(low == (if below(self.min, lower_fence) {
            s.take(leading_below(s, lower_fence, 0) as int)
        } else {
            Seq::empty()
        }));
        if is_key_lt(upper_fence, self.max) {
            let mut j: usize = n;
            while j > 0 && is_key_lt(upper_fence, self.values[j - 1])
                invariant
                    n == self.values.len(),
                    s == self.values@,
                    j <= n,
                    res@ == low + s.subrange(j as int, n as int).reverse(),
                    trailing_above(s, upper_fence, n as int) == (n - j) + trailing_above(
                        s,
                        upper_fence,
                        j as int,
                    ),
                decreases j,
            {
                res.push(self.values[j - 1]);
                assert(s.subrange(j - 1, n as int).reverse() =~= s.subrange(
                    j as int,
                    n as int,
                ).reverse().push(s[j - 1]));
                j = j - 1;
            }
        } else {
            assert(res@ == low + Seq::<u64>::empty());
        }
        res
    }
}

/// At most the rest of `s` from `i` on lies below a fence.
proof fn lemma_leading_below_bound(s: Seq<u64>, fence: u64, i: int)
    requires
        0 <= i <= s.len(),
    ensures
        i + leading_below(s, fence, i) <= s.len(),
        forall|k: int| i <= k < i + leading_below(s, fence, i) ==> below(#[trigger] s[k], fence),
        i + leading_below(s, fence, i) < s.len() ==> !below(s[i + leading_below(s, fence, i)], fence),
    decreases s.len() - i,
{
    if i < s.len() && below(s[i], fence) {
        lemma_leading_below_bound(s, fence, i + 1);
    }
}

/// At most the first `j` values of `s` lie, from the end, above a fence.
proof fn lemma_trailing_above_bound(s: Seq<u64>, fence: u64, j: int)
    requires
        0 <= j <= s.len(),
    ensures
        trailing_above(s, fence, j) <= j,
        forall|k: int| j - trailing_above(s, fence, j) <= k < j ==> above(#[trigger] s[k], fence),
        trailing_above(s, fence, j) < j ==> !above(s[j - trailing_above(s, fence, j) - 1], fence),
    decreases j,
{
    if j > 0 && above(s[j - 1], fence) {
        lemma_trailing_above_bound(s, fence, j - 1);
    }
}

/// The values passed over before `a` do not stop the search for the first
/// value at or above a fence.
proof fn lemma_first_at_least_skips(s: Seq<u64>, fence: u64, i: int, a: int)
    requires
        0 <= i <= a <= s.len(),
        forall|k: int| i <= k < a ==> !at_least(#[trigger] s[k], fence),
    ensures
        first_at_least(s, fence, i) == first_at_least(s, fence, a),
    decreases a - i,
{
    if i < a {
        lemma_first_at_least_skips(s, fence, i + 1, a);
    }
}

/// The values passed over after `b` do not stop the search for the last
/// value at or below a fence.
proof fn lemma_last_at_most_skips(s: Seq<u64>, fence: u64, b: int, j: int)
    requires
        0 <= b <= j <= s.len(),
        forall|k: int| b <= k < j ==> !at_most(#[trigger] s[k], fence),
    ensures
        last_at_most(s, fence, j) == last_at_most(s, fence, b),
    decreases j - b,
{
    if b < j {
        lemma_last_at_most_skips(s, fence, b, j - 1);
    }
}

/// Whether the lower fence does not lie above the upper one (a NaN fence
/// lies above nothing).
pub open spec fn fences_ordered(lower_fence: u64, upper_fence: u64) -> bool {
    !key_lt(upper_fence, lower_fence)
}

/// The bounds of a quantile's position: the index it stands at, or the two
/// it lies between.
pub open spec fn quantile_bounds(q: Quantile) -> (int, int) {
    match q {
        Quantile::At(i) => (i as int, i as int),
        Quantile::Between(i, j) => (i as int, j as int),
        _ => (0, 0),
    }
}

/// Whether a quantile is found among the sorted values by position.
pub open spec fn is_positional(q: Quantile) -> bool {
    q is At || q is Between
}

/// From three values on, the median and the quartiles are found by
/// position: each at one index or between two neighbours, all inside the
/// list; the lower quartile comes no later than the median and the median
/// no later than the upper quartile; and the positions mirror each other
/// about the middle of the list.
pub proof fn lemma_quantile_positions(n: int)
    requires
        3 <= n <= usize::MAX,
    ensures
        ({
            let (m_lo, m_hi) = quantile_bounds(spec_median_position(n));
            let (l_lo, l_hi) = quantile_bounds(spec_lower_quartile_position(n));
            let (u_lo, u_hi) = quantile_bounds(spec_upper_quartile_position(n));
            &&& is_positional(spec_median_position(n))
            &&& is_positional(spec_lower_quartile_position(n))
            &&& is_positional(spec_upper_quartile_position(n))
            &&& 0 <= l_lo <= l_hi < n && l_hi <= l_lo + 1
            &&& 0 <= m_lo <= m_hi < n && m_hi <= m_lo + 1
            &&& 0 <= u_lo <= u_hi < n && u_hi <= u_lo + 1
            &&& l_lo <= m_lo <= u_lo
            &&& l_hi <= m_hi <= u_hi
            &&& m_lo + m_hi == n - 1
            &&& l_lo + u_hi == n - 1
            &&& l_hi + u_lo == n - 1
        }),
{
    let k = n - 1;
    assert(k / 4 * 4 + k % 4 == k);
    assert(3 * k / 4 == 3 * (k / 4) + (3 * (k % 4)) / 4);
}

/// Whether a quantile is read at the fractional position `num / den` of the
/// sorted values: at that index when it is whole, else halfway between the
/// index below it (its floor) and the index above it (its ceiling).
pub open spec fn reads_at_fraction(q: Quantile, num: int, den: int) -> bool {
    let (lo, hi) = quantile_bounds(q);
    &&& is_positional(q)
    &&& den * lo <= num < den * lo + den
    &&& den * hi - den < num <= den * hi
    &&& (q is At <==> num % den == 0)
}

/// Where the median and the quartiles of `n` sorted values are read. Fewer
/// than three values give the mean, the minimum and the maximum. From three
/// on, with the middle position `m = (n - 1) / 2`, the median is read at
/// `m`, the lower quartile at `m - m / 2 = (n - 1) / 4` and the upper
/// quartile at `m + m / 2 = 3 (n - 1) / 4`; a position that is not whole is
/// read halfway between the values at its floor and its ceiling.
pub proof fn lemma_quantiles_read_at_their_fractions(n: int)
    requires
        0 <= n <= usize::MAX,
    ensures
        n < 3 ==> spec_median_position(n) == Quantile::Mean,
        n < 3 ==> spec_lower_quartile_position(n) == Quantile::Min,
        n < 3 ==> spec_upper_quartile_position(n) == Quantile::Max,
        n >= 3 ==> reads_at_fraction(spec_median_position(n), n - 1, 2),
        n >= 3 ==> reads_at_fraction(spec_lower_quartile_position(n), n - 1, 4),
        n >= 3 ==> reads_at_fraction(spec_upper_quartile_position(n), 3 * (n - 1), 4),
{
    if n >= 3 {
        let k = n - 1;
        assert(k / 4 * 4 + k % 4 == k);
        assert(3 * k / 4 * 4 + (3 * k) % 4 == 3 * k);
        assert((3 * k) % 4 == 0 <==> k % 4 == 0);
    }
}

/// Whether `a` and `b` cut the sorted values of `summary` into three parts:
/// those below the lower fence, those between the fences, and those above
/// the upper fence; with the outliers the first part in ascending order
/// followed by the last part in descending order. When the middle part is
/// not empty, the range excluding outliers runs from its first value to
/// its last, no outlier lies in that range, and (unless the one value is a
/// NaN) the values in that range are exactly the middle part: the outliers
/// and the values in the range together make up all the values.
pub open spec fn splits_at_fences(
    summary: PointSummery,
    lower_fence: u64,
    upper_fence: u64,
    a: int,
    b: int,
) -> bool {
    let s = summary.values@;
    &&& 0 <= a <= b <= s.len()
    &&& forall|k: int| 0 <= k < a ==> below(#[trigger] s[k], lower_fence)
    &&& forall|k: int|
        a <= k < b ==> !below(#[trigger] s[k], lower_fence) && !above(s[k], upper_fence)
    &&& forall|k: int| b <= k < s.len() ==> above(#[trigger] s[k], upper_fence)
    &&& summary.spec_outliers(lower_fence, upper_fence) == s.take(a) + s.subrange(
        b,
        s.len() as int,
    ).reverse()
    &&& summary.spec_outliers(lower_fence, upper_fence).len() + (b - a) == s.len()
    &&& a < b ==> summary.spec_range_excluding_outliers(lower_fence, upper_fence) == (
        s[a],
        s[b - 1],
    )
    &&& a < b ==> forall|i: int|
        0 <= i < summary.spec_outliers(lower_fence, upper_fence).len() ==> !(key_le(
            s[a],
            #[trigger] summary.spec_outliers(lower_fence, upper_fence)[i],
        ) && key_le(summary.spec_outliers(lower_fence, upper_fence)[i], s[b - 1]))
    &&& a < b && !is_nan_key(s[a]) ==> forall|k: int|
        0 <= k < s.len() ==> (a <= k < b <==> key_le(s[a], #[trigger] s[k]) && key_le(
            s[k],
            s[b - 1],
        ))
}

/// For a summary made by `create` and fences in order, the sorted values
/// fall in three parts: those below the lower fence, those between the
/// fences, and those above the upper fence. The outliers are exactly the
/// first part in ascending order followed by the last part in descending
/// order; and when the middle part is not empty, the range excluding
/// outliers runs from its first value to its last.
pub proof fn lemma_outliers_split_by_fences(
    summary: PointSummery,
    lower_fence: u64,
    upper_fence: u64,
)
    requires
        summary.wf(),
        fences_ordered(lower_fence, upper_fence),
    ensures
        exists|a: int, b: int| splits_at_fences(summary, lower_fence, upper_fence, a, b),
{
    let s = summary.values@;
    let n = s.len() as int;
    lemma_leading_below_bound(s, lower_fence, 0);
    lemma_trailing_above_bound(s, upper_fence, n);
    let a = leading_below(s, lower_fence, 0) as int;
    let b = n - trailing_above(s, upper_fence, n);
    assert forall|k: int| a <= k < n implies !below(#[trigger] s[k], lower_fence) by {
        if k > a {
            assert(key_le(s[a], s[k]));
        }
    }
    assert forall|k: int| 0 <= k < b implies !above(#[trigger] s[k], upper_fence) by {
        if k < b - 1 {
            assert(key_le(s[k], s[b - 1]));
        }
    }
    if a > b {
        assert(below(s[b], lower_fence) && above(s[b], upper_fence));
    }
    if n > 0 && !below(summary.min, lower_fence) {
        assert(!below(s[0], lower_fence));
    }
    if n > 0 && !above(summary.max, upper_fence) {
        assert(!above(s[n - 1], upper_fence));
    }
    assert(s.take(0) =~= Seq::<u64>::empty());
    assert(s.subrange(n, n).reverse() =~= Seq::<u64>::empty());
    assert(summary.spec_outliers(lower_fence, upper_fence) =~= s.take(a) + s.subrange(b, n).reverse());
    if a < b {
        assert forall|k: int| 0 <= k < a implies !at_least(#[trigger] s[k], lower_fence) by {
            assert(below(s[k], lower_fence));
        }
        lemma_first_at_least_skips(s, lower_fence, 0, a);
        assert forall|k: int| b <= k < n implies !at_most(#[trigger] s[k], upper_fence) by {
            assert(above(s[k], upper_fence));
        }
        lemma_last_at_most_skips(s, upper_fence, b, n);
        assert(!below(s[a], lower_fence));
        assert(!above(s[b - 1], upper_fence));
        if at_least(s[a], lower_fence) {
            assert(first_at_least(s, lower_fence, a) == Some(s[a]));
        } else {
            assert forall|k: int| 0 <= k < n implies !at_least(#[trigger] s[k], lower_fence) by {
                if n >= 2 {
                    assert(!is_nan_key(s[a]) && !is_nan_key(s[k]));
                }
            }
            lemma_first_at_least_skips(s, lower_fence, 0, n);
        }
        if at_most(s[b - 1], upper_fence) {
            assert(last_at_most(s, upper_fence, b) == Some(s[b - 1]));
        } else {
            assert forall|k: int| 0 <= k < n implies !at_most(#[trigger] s[k], upper_fence) by {
                if n >= 2 {
                    assert(!is_nan_key(s[b - 1]) && !is_nan_key(s[k]));
                }
            }
            lemma_last_at_most_skips(s, upper_fence, 0, n);
        }
        let o = summary.spec_outliers(lower_fence, upper_fence);
        assert forall|i: int| 0 <= i < o.len() implies !(key_le(s[a], #[trigger] o[i]) && key_le(
            o[i],
            s[b - 1],
        )) by {
            if i < a {
                assert(o[i] == s[i]);
                assert(below(s[i], lower_fence));
            } else {
                assert(o[i] == s[n - 1 - (i - a)]);
                assert(above(s[n - 1 - (i - a)], upper_fence));
            }
        }
        if !is_nan_key(s[a]) {
            assert forall|k: int| 0 <= k < n implies (a <= k < b <==> key_le(s[a], #[trigger] s[k])
                && key_le(s[k], s[b - 1])) by {
                if k < a {
                    assert(below(s[k], lower_fence));
                } else if k >= b {
                    assert(above(s[k], upper_fence));
                } else {
                    if k > a {
                        assert(key_le(s[a], s[k]));
                    }
                    if k < b - 1 {
                        assert(key_le(s[k], s[b - 1]));
                    }
                }
            }
        }
    }
    assert(splits_at_fences(summary, lower_fence, upper_fence, a, b));
}

/// Whether, for any two fences, `a` values of `summary` lie below the lower
/// fence (they come first), `c` lie above the upper fence (they come last),
/// the outliers are the first `a` in ascending order followed by the last
/// `c` in descending order, and the range excluding outliers runs from the
/// first value not below the lower fence to the last value not above the
/// upper fence (the minimum or the maximum where there is none).
pub open spec fn counts_beyond_fences(
    summary: PointSummery,
    lower_fence: u64,
    upper_fence: u64,
    a: int,
    c: int,
) -> bool {
    let s = summary.values@;
    let n = s.len() as int;
    &&& 0 <= a <= n
    &&& 0 <= c <= n
    &&& forall|k: int| 0 <= k < n ==> (k < a <==> below(#[trigger] s[k], lower_fence))
    &&& forall|k: int| 0 <= k < n ==> (k >= n - c <==> above(#[trigger] s[k], upper_fence))
    &&& summary.spec_outliers(lower_fence, upper_fence) == s.take(a) + s.subrange(n - c, n).reverse()
    &&& summary.spec_range_excluding_outliers(lower_fence, upper_fence) == (
        if a < n {
            s[a]
        } else {
            summary.min
        },
        if c < n {
            s[n - c - 1]
        } else {
            summary.max
        },
    )
}

/// For a summary made by `create` and any two fences: the values below the
/// lower fence are the first ones and the values above the upper fence the
/// last ones; the outliers are the former in ascending order followed by
/// the latter in descending order; and the range excluding outliers runs
/// from the first value not below the lower fence to the last value not
/// above the upper fence, falling back to the minimum or the maximum.
pub proof fn lemma_outliers_and_range_by_fences(
    summary: PointSummery,
    lower_fence: u64,
    upper_fence: u64,
)
    requires
        summary.wf(),
    ensures
        exists|a: int, c: int| counts_beyond_fences(summary, lower_fence, upper_fence, a, c),
{
    let s = summary.values@;
    let n = s.len() as int;
    lemma_leading_below_bound(s, lower_fence, 0);
    lemma_trailing_above_bound(s, upper_fence, n);
    let a = leading_below(s, lower_fence, 0) as int;
    let c = trailing_above(s, upper_fence, n) as int;
    let b = n - c;
    assert forall|k: int| a <= k < n implies !below(#[trigger] s[k], lower_fence) by {
        if k > a {
            assert(key_le(s[a], s[k]));
        }
    }
    assert forall|k: int| 0 <= k < b implies !above(#[trigger] s[k], upper_fence) by {
        if k < b - 1 {
            assert(key_le(s[k], s[b - 1]));
        }
    }
    if n > 0 && !below(summary.min, lower_fence) {
        assert(!below(s[0], lower_fence));
    }
    if n > 0 && !above(summary.max, upper_fence) {
        assert(!above(s[n - 1], upper_fence));
    }
    assert(s.take(0) =~= Seq::<u64>::empty());
    assert(s.subrange(n, n).reverse() =~= Seq::<u64>::empty());
    assert(summary.spec_outliers(lower_fence, upper_fence) =~= s.take(a) + s.subrange(b, n).reverse());
    assert forall|k: int| 0 <= k < a implies !at_least(#[trigger] s[k], lower_fence) by {
        assert(below(s[k], lower_fence));
    }
    assert forall|k: int| b <= k < n implies !at_most(#[trigger] s[k], upper_fence) by {
        assert(above(s[k], upper_fence));
    }
    lemma_first_at_least_skips(s, lower_fence, 0, a);
    lemma_last_at_most_skips(s, upper_fence, b, n);
    if a < n {
        if at_least(s[a], lower_fence) {
            assert(first_at_least(s, lower_fence, a) == Some(s[a]));
        } else {
            assert forall|k: int| 0 <= k < n implies !at_least(#[trigger] s[k], lower_fence) by {
                if n >= 2 {
                    assert(!is_nan_key(s[a]) && !is_nan_key(s[k]));
                }
            }
            lemma_first_at_least_skips(s, lower_fence, 0, n);
            if a > 0 {
                assert(below(s[0], lower_fence));
                assert(!is_nan_key(s[a]));
            }
        }
    }
    if b > 0 {
        if at_most(s[b - 1], upper_fence) {
            assert(last_at_most(s, upper_fence, b) == Some(s[b - 1]));
        } else {
            assert forall|k: int| 0 <= k < n implies !at_most(#[trigger] s[k], upper_fence) by {
                if n >= 2 {
                    assert(!is_nan_key(s[b - 1]) && !is_nan_key(s[k]));
                }
            }
            lemma_last_at_most_skips(s, upper_fence, 0, n);
            if b < n {
                assert(above(s[n - 1], upper_fence));
                assert(!is_nan_key(s[b - 1]));
            }
        }
    }
    assert(counts_beyond_fences(summary, lower_fence, upper_fence, a, c));
}

} // verus!
