//! The weighted-average engine: given one sparse, time-ordered series of
//! (timestamp, value) pairs, compute the covered duration, the time-weighted
//! average and the peak value.
//!
//! The average is kept as an exact rational `num / den`: for each consecutive
//! pair the gap is weighted by the arithmetic mean of the two endpoint values,
//! so `num` is the sum of `gap * (v1 + v2)` and `den` is twice the covered
//! duration. A series with fewer than two entries, or with zero covered
//! duration, has no average ("no data"); a decreasing timestamp is a
//! data-integrity error, never a silently wrong average.

use vstd::prelude::*;

verus! {

/// One retained sample of a sparse series: a timestamp in milliseconds and
/// the integer sensor value read at that instant.
#[derive(Clone, Copy, PartialEq, Eq, Structural, Debug)]
pub struct Data {
    pub ts: u64,
    pub val: u16,
}

/// Timestamps never decrease along the series.
pub open spec fn ordered(s: Seq<Data>) -> bool {
    forall|i: int| 0 <= i < s.len() - 1 ==> #[trigger] s[i].ts <= s[i + 1].ts
}

/// Covered duration in milliseconds: the sum, over each consecutive pair of
/// entries, of the time gap between them.
pub open spec fn duration_of(s: Seq<Data>) -> int
    decreases s.len(),
{
    if s.len() < 2 {
        0
    } else {
        duration_of(s.drop_last()) + (s[s.len() - 1].ts - s[s.len() - 2].ts)
    }
}

/// Twice the time-weighted sum: each consecutive gap weighted by the sum of
/// its two endpoint values (twice their midpoint, so the value is integral).
pub open spec fn weighted_sum(s: Seq<Data>) -> int
    decreases s.len(),
{
    if s.len() < 2 {
        0
    } else {
        weighted_sum(s.drop_last()) + (s[s.len() - 1].ts - s[s.len() - 2].ts) * (
        s[s.len() - 2].val + s[s.len() - 1].val)
    }
}

/// The exact time-weighted average `num / den` of a series, with
/// `num == weighted_sum` and `den == 2 * covered duration`.
#[derive(Clone, Copy, PartialEq, Eq, Structural, Debug)]
pub struct Weighted {
    pub num: u128,
    pub den: u128,
}

impl Weighted {
    /// A positive denominator of at most twice the timestamp range, and an
    /// average that fits the value range.
    pub open spec fn wf(self) -> bool {
        0 < self.den && self.den <= 0x2_0000_0000_0000_0000 && self.num <= 65535 * self.den
    }

    /// The average rounded to the nearest integer, halves rounding up.
    pub open spec fn rounded_spec(self) -> int {
        (2 * self.num + self.den) / (2 * self.den)
    }

    /// Round the exact average to the nearest integer (halves up).
    pub fn rounded(&self) -> (r: u16)
        requires
            self.wf(),
        ensures
            r == self.rounded_spec(),
    {
        proof {
            assert(self.num <= 65535 * 0x2_0000_0000_0000_0000) by (nonlinear_arith)
                requires
                    self.num <= 65535 * self.den,
                    self.den <= 0x2_0000_0000_0000_0000,
            {
            }
        }
        let n: u128 = 2 * self.num + self.den;
        let d: u128 = 2 * self.den;
        proof {
            assert(n <= 131071 * self.den);
            assert(n / d <= 65535) by (nonlinear_arith)
                requires
                    n <= 131071 * self.den,
                    d == 2 * self.den,
                    0 < self.den,
            {
            }
        }
        (n / d) as u16
    }
}

/// The engine result for one series: the covered duration, and the exact
/// average where the series has one ("no data" otherwise).
#[derive(Clone, Copy, PartialEq, Eq, Structural, Debug)]
pub struct Avg {
    pub total_time_ms: u64,
    pub avg: Option<Weighted>,
}

/// A decreasing timestamp inside a series: a data-integrity fault, reported
/// with both offending timestamps.
#[derive(Clone, Copy, PartialEq, Eq, Structural, Debug)]
pub struct IntegrityError {
    pub prev_ms: u64,
    pub next_ms: u64,
}

/// The error names a genuinely decreasing consecutive pair of the series.
pub open spec fn names_decreasing_pair(e: IntegrityError, s: Seq<Data>) -> bool {
    exists|i: int|
        0 <= i < s.len() - 1 && #[trigger] s[i].ts > s[i + 1].ts && e.prev_ms == s[i].ts
            && e.next_ms == s[i + 1].ts
}

/// The covered duration of an ordered series telescopes to the gap between
/// its first and last entries.
pub proof fn lemma_duration_telescopes(s: Seq<Data>)
    requires
        ordered(s),
        s.len() >= 1,
    ensures
        duration_of(s) == s.last().ts - s[0].ts,
    decreases s.len(),
{
    if s.len() >= 2 {
        assert(ordered(s.drop_last())) by {
            assert(forall|i: int|
                0 <= i < s.drop_last().len() - 1 ==> #[trigger] s.drop_last()[i].ts
                    <= s.drop_last()[i + 1].ts) by {
                assert(forall|i: int| 0 <= i < s.len() - 1 ==> #[trigger] s[i].ts <= s[i + 1].ts);
            }
        }
        lemma_duration_telescopes(s.drop_last());
    }
}

/// The maximum raw value of a series, entry by entry; none for an empty
/// series.
pub open spec fn peak_spec(s: Seq<Data>) -> Option<u16>
    decreases s.len(),
{
    if s.len() == 0 {
        None
    } else {
        match peak_spec(s.drop_last()) {
            None => Some(s.last().val),
            Some(m) => Some(
                if s.last().val > m {
                    s.last().val
                } else {
                    m
                },
            ),
        }
    }
}

/// Peak: the maximum raw (unweighted) value across all entries of a series;
/// an empty series has no peak ("no data").
pub fn peak(v: &Vec<Data>) -> (r: Option<u16>)
    ensures
        r == peak_spec(v@),
        r is None <==> v@.len() == 0,
        r matches Some(m) ==> (exists|i: int| 0 <= i < v@.len() && v@[i].val == m) && (forall|
        i: int|
            0 <= i < v@.len() ==> #[trigger] v@[i].val <= m),
{
    if v.len() == 0 {
        return None;
    }
    let mut m: u16 = v[0].val;
    let mut i: usize = 1;
    proof {
        assert(v@.take(1).drop_last() =~= Seq::<Data>::empty());
        assert(v@.take(1).last() == v@[0]);
        assert(peak_spec(Seq::<Data>::empty()) is None);
    }
    while i < v.len()
        invariant
            1 <= i <= v@.len(),
            Some(m) == peak_spec(v@.take(i as int)),
            exists|k: int| 0 <= k < i && v@[k].val == m,
            forall|k: int| 0 <= k < i ==> #[trigger] v@[k].val <= m,
        decreases v@.len() - i,
    {
        proof {
            assert(v@.take(i + 1 as int).drop_last() =~= v@.take(i as int));
            assert(v@.take(i + 1 as int).last() == v@[i as int]);
        }
        if v[i].val > m {
            m = v[i].val;
        }
        i = i + 1;
    }
    proof {
        assert(v@.take(v@.len() as int) =~= v@);
    }
    Some(m)
}

/// A series whose entries all carry the one value `v` has weighted sum
/// exactly `v` times twice its covered duration: its weighted average is
/// `v` exactly, regardless of the time gaps.
pub proof fn lemma_constant_series(s: Seq<Data>, v: u16)
    requires
        forall|i: int| 0 <= i < s.len() ==> #[trigger] s[i].val == v,
    ensures
        weighted_sum(s) == v * (2 * duration_of(s)),
    decreases s.len(),
{
    if s.len() < 2 {
        assert(weighted_sum(s) == 0 && duration_of(s) == 0);
        assert(v * (2 * 0) == 0) by (nonlinear_arith);
    } else {
        lemma_constant_series(s.drop_last(), v);
        let gap = s[s.len() - 1].ts - s[s.len() - 2].ts;
        let dl = duration_of(s.drop_last());
        assert(weighted_sum(s) == v * (2 * dl) + gap * (v + v));
        assert(v * (2 * dl) + gap * (v + v) == v * (2 * (dl + gap))) by (nonlinear_arith);
    }
}

/// Rounding the weighted average of an all-`v` series gives back `v`.
pub proof fn lemma_constant_series_rounded(w: Weighted, v: u16)
    requires
        w.wf(),
        w.num == v * w.den,
    ensures
        w.rounded_spec() == v,
{
    let q = 2 * w.den as int;
    assert(2 * w.num + w.den == (v as int) * q + w.den) by (nonlinear_arith)
        requires
            w.num == v * w.den,
            q == 2 * w.den,
    {
    }
    vstd::arithmetic::div_mod::lemma_fundamental_div_mod_converse(
        2 * w.num + w.den as int,
        q,
        v as int,
        w.den as int,
    );
}

/// Extending an ordered prefix by one non-decreasing entry extends its
/// covered duration and weighted sum by exactly one segment.
proof fn lemma_prefix_step(v: Seq<Data>, i: int)
    requires
        1 <= i < v.len(),
        v[i - 1].ts <= v[i].ts,
        ordered(v.take(i)),
    ensures
        ordered(v.take(i + 1)),
        duration_of(v.take(i + 1)) == duration_of(v.take(i)) + (v[i].ts - v[i - 1].ts),
        weighted_sum(v.take(i + 1)) == weighted_sum(v.take(i)) + (v[i].ts - v[i - 1].ts) * (v[i
            - 1].val + v[i].val),
{
    assert(v.take(i + 1).drop_last() =~= v.take(i));
    assert(v.take(i + 1)[i] == v[i]);
    assert(v.take(i + 1)[i - 1] == v[i - 1]);
    assert forall|k: int| 0 <= k < v.take(i + 1).len() - 1 implies #[trigger] v.take(i + 1)[k].ts
        <= v.take(i + 1)[k + 1].ts by {
        if k < i - 1 {
            assert(v.take(i)[k].ts <= v.take(i)[k + 1].ts);
        }
    }
}

/// The average a series yields: none for a series shorter than two entries
/// or spanning zero time, else the exact rational.
pub open spec fn avg_opt_spec(s: Seq<Data>) -> Option<Weighted> {
    if s.len() < 2 || duration_of(s) == 0 {
        None
    } else {
        Some(Weighted { num: weighted_sum(s) as u128, den: (2 * duration_of(s)) as u128 })
    }
}

/// Compute the covered duration and the exact time-weighted average of one
/// series. Fails, naming both timestamps, exactly when some consecutive pair
/// of timestamps decreases; a series shorter than two entries, or spanning
/// zero time, yields "no data" instead of an average.
pub fn get_avg(v: &Vec<Data>) -> (r: Result<Avg, IntegrityError>)
    ensures
        r is Ok <==> ordered(v@),
        r matches Ok(a) ==> a.total_time_ms == duration_of(v@) && a.avg == avg_opt_spec(v@) && (
        a.avg matches Some(w) ==> w.wf()),
        r matches Err(e) ==> names_decreasing_pair(e, v@),
{
    let n = v.len();
    if n < 2 {
        assert(ordered(v@));
        return Ok(Avg { total_time_ms: 0, avg: None });
    }
    let mut dur: u64 = 0;
    let mut ws: u128 = 0;
    let mut i: usize = 1;
    while i < n
        invariant
            1 <= i <= n,
            n == v@.len(),
            n >= 2,
            ordered(v@.take(i as int)),
            dur == duration_of(v@.take(i as int)),
            ws == weighted_sum(v@.take(i as int)),
            ws <= 131070 * (dur as int),
        decreases n - i,
    {
        let prev = v[i - 1];
        let cur = v[i];
        if cur.ts < prev.ts {
            return Err(IntegrityError { prev_ms: prev.ts, next_ms: cur.ts });
        }
        let gap: u64 = cur.ts - prev.ts;
        proof {
            lemma_prefix_step(v@, i as int);
            lemma_duration_telescopes(v@.take(i as int));
            assert(v@.take(i as int)[0] == v@[0]);
            assert(v@.take(i as int).last() == prev);
            let sumv = (prev.val + cur.val) as int;
            assert((gap as int) * sumv <= (gap as int) * 131070 && 131070 * (dur as int) + (
            gap as int) * 131070 == 131070 * ((dur as int) + gap)) by (nonlinear_arith)
                requires
                    sumv <= 131070,
                    gap >= 0,
            {
            }
        }
        dur = dur + gap;
        ws = ws + (gap as u128) * ((prev.val as u128) + (cur.val as u128));
        i = i + 1;
    }
    proof {
        assert(v@.take(n as int) =~= v@);
    }
    if dur == 0 {
        Ok(Avg { total_time_ms: 0, avg: None })
    } else {
        Ok(
            Avg {
                total_time_ms: dur,
                avg: Some(Weighted { num: ws, den: 2 * (dur as u128) }),
            },
        )
    }
}

} // verus!
