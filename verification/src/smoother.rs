//! A moving average over the most recent hand positions.

use vstd::prelude::*;

verus! {

/// Samples averaged by default.
pub const MOVING_AVERAGE_SAMPLES: usize = 3;

/// A position in the tracked volume: x, y and z, in millimetres.
pub type Position = (i32, i32, i32);

/// The coordinate of `p` on `axis`: 0 for x, 1 for y, anything else for z.
pub open spec fn coordinate(p: Position, axis: int) -> int {
    if axis == 0 {
        p.0 as int
    } else if axis == 1 {
        p.1 as int
    } else {
        p.2 as int
    }
}

/// The sum of the coordinates of all `samples` on one axis.
pub open spec fn axis_sum(samples: Seq<Position>, axis: int) -> int
    decreases samples.len(),
{
    if samples.len() == 0 {
        0
    } else {
        axis_sum(samples.drop_last(), axis) + coordinate(samples.last(), axis)
    }
}

/// `total / count` with the fraction cut off, towards zero; 0 when there is
/// nothing to average.
pub open spec fn truncated_mean(total: int, count: int) -> int {
    if count <= 0 {
        0
    } else if total >= 0 {
        total / count
    } else {
        -((-total) / count)
    }
}

/// The mean of `samples` on one axis, truncated towards zero.
pub open spec fn axis_mean(samples: Seq<Position>, axis: int) -> int {
    truncated_mean(axis_sum(samples, axis), samples.len() as int)
}

/// A window after `sample` has entered it: the sample is appended, and the
/// oldest one leaves if the window then holds more than `capacity`.
pub open spec fn window_push(window: Seq<Position>, sample: Position, capacity: nat) -> Seq<
    Position,
> {
    let grown = window.push(sample);
    if grown.len() > capacity {
        grown.drop_first()
    } else {
        grown
    }
}

/// The window that results from entering `inserted`, oldest first, into an
/// empty window.
pub open spec fn window_after(inserted: Seq<Position>, capacity: nat) -> Seq<Position>
    decreases inserted.len(),
{
    if inserted.len() == 0 {
        Seq::empty()
    } else {
        window_push(window_after(inserted.drop_last(), capacity), inserted.last(), capacity)
    }
}

/// The last `capacity` of the samples, or all of them if there are fewer.
pub open spec fn last_samples(inserted: Seq<Position>, capacity: nat) -> Seq<Position> {
    if inserted.len() <= capacity {
        inserted
    } else {
        inserted.subrange(inserted.len() - capacity, inserted.len() as int)
    }
}

/// A bounded first-in-first-out window of positions and its running mean.
pub struct MovingAverage {
    samples: Vec<Position>,
    capacity: usize,
}

impl View for MovingAverage {
    type V = Seq<Position>;

    /// The samples held, oldest first.
    closed spec fn view(&self) -> Seq<Position> {
        self.samples@
    }
}

impl MovingAverage {
    /// The most samples the window holds.
    pub closed spec fn capacity(&self) -> nat {
        self.capacity as nat
    }

    /// An empty window of [`MOVING_AVERAGE_SAMPLES`] samples.
    pub fn new() -> (window: Self)
        ensures
            window@ == Seq::<Position>::empty(),
            window.capacity() == MOVING_AVERAGE_SAMPLES,
    {
        MovingAverage { samples: Vec::new(), capacity: MOVING_AVERAGE_SAMPLES }
    }

    /// An empty window of `capacity` samples.
    pub fn with_capacity(capacity: usize) -> (window: Self)
        ensures
            window@ == Seq::<Position>::empty(),
            window.capacity() == capacity,
    {
        MovingAverage { samples: Vec::new(), capacity }
    }

    /// The number of samples held.
    pub fn len(&self) -> (n: usize)
        ensures
            n == self@.len(),
    {
        self.samples.len()
    }

    /// Enters a sample; the oldest one leaves once the window is full.
    pub fn add_sample(&mut self, x: i32, y: i32, z: i32)
        ensures
            final(self)@ == window_push(old(self)@, (x, y, z), old(self).capacity()),
            final(self).capacity() == old(self).capacity(),
    {
        self.samples.push((x, y, z));
        if self.samples.len() > self.capacity {
            self.samples.remove(0);
        }
        assert(self.samples@ =~= window_push(old(self)@, (x, y, z), old(self).capacity()));
    }

    /// The mean of the samples held, on each axis, truncated towards zero;
    /// the origin while the window is empty.
    pub fn get_smoothed_position(&self) -> (mean: Position)
        ensures
            mean.0 == axis_mean(self@, 0),
            mean.1 == axis_mean(self@, 1),
            mean.2 == axis_mean(self@, 2),
    {
        let count = self.samples.len();
        if count == 0 {
            return (0, 0, 0);
        }
        let mut sum_x: i128 = 0;
        let mut sum_y: i128 = 0;
        let mut sum_z: i128 = 0;
        let mut i: usize = 0;
        while i < count
            invariant
                i <= count,
                count == self.samples@.len(),
                sum_x == axis_sum(self.samples@.take(i as int), 0),
                sum_y == axis_sum(self.samples@.take(i as int), 1),
                sum_z == axis_sum(self.samples@.take(i as int), 2),
                -(i * 0x8000_0000) <= sum_x <= i * 0x7fff_ffff,
                -(i * 0x8000_0000) <= sum_y <= i * 0x7fff_ffff,
                -(i * 0x8000_0000) <= sum_z <= i * 0x7fff_ffff,
            decreases count - i,
        {
            let (x, y, z) = self.samples[i];
            assert(self.samples@.take(i + 1).drop_last() =~= self.samples@.take(i as int));
            sum_x = sum_x + x as i128;
            sum_y = sum_y + y as i128;
            sum_z = sum_z + z as i128;
            i = i + 1;
        }
        assert(self.samples@.take(count as int) =~= self.samples@);
        (mean_of(sum_x, count), mean_of(sum_y, count), mean_of(sum_z, count))
    }
}

/// Divides a sum of `count` coordinates by `count`, truncating towards zero.
fn mean_of(total: i128, count: usize) -> (mean: i32)
    requires
        count > 0,
        -(count * 0x8000_0000) <= total <= count * 0x7fff_ffff,
    ensures
        mean == truncated_mean(total as int, count as int),
{
    let n = count as i128;
    if total >= 0 {
        let q = total / n;
        assert(0 <= q <= 0x7fff_ffff) by (nonlinear_arith)
            requires
                q == total / n,
                0 <= total <= n * 0x7fff_ffff,
                n > 0,
        ;
        q as i32
    } else {
        let negated: i128 = -total;
        let q = negated / n;
        assert(0 <= q <= 0x8000_0000) by (nonlinear_arith)
            requires
                q == negated / n,
                0 <= negated <= n * 0x8000_0000,
                n > 0,
        ;
        (-q) as i32
    }
}

/// Takes one reading of the palm position into the window and returns the
/// smoothed position. A reading that is not a position (`None`) leaves the
/// window as it is and yields the origin.
pub fn hand_tracking(reading: Option<Position>, moving_average: &mut MovingAverage) -> (smoothed:
    Position)
    ensures
        final(moving_average).capacity() == old(moving_average).capacity(),
        reading is None ==> final(moving_average)@ == old(moving_average)@ && smoothed == (
            0i32,
            0i32,
            0i32,
        ),
        reading matches Some(p) ==> final(moving_average)@ == window_push(
            old(moving_average)@,
            p,
            old(moving_average).capacity(),
        ) && smoothed.0 == axis_mean(final(moving_average)@, 0) && smoothed.1 == axis_mean(
            final(moving_average)@,
            1,
        ) && smoothed.2 == axis_mean(final(moving_average)@, 2),
{
    match reading {
        None => (0, 0, 0),
        Some((x, y, z)) => {
            moving_average.add_sample(x, y, z);
            moving_average.get_smoothed_position()
        },
    }
}

/// Whatever was entered, the window holds exactly the last `capacity`
/// samples, or all of them while fewer have been entered, so the smoothed
/// position is the truncated mean of exactly those.
pub proof fn lemma_window_holds_last_samples(inserted: Seq<Position>, capacity: nat)
    ensures
        window_after(inserted, capacity) == last_samples(inserted, capacity),
        forall|axis: int|
            axis_mean(window_after(inserted, capacity), axis) == axis_mean(
                last_samples(inserted, capacity),
                axis,
            ),
    decreases inserted.len(),
{
    if inserted.len() > 0 {
        lemma_window_holds_last_samples(inserted.drop_last(), capacity);
        assert(window_after(inserted, capacity) =~= last_samples(inserted, capacity));
    }
}

/// The mean of positions is a position: on every axis it lies in the range
/// of `i32`.
pub proof fn lemma_mean_is_a_coordinate(samples: Seq<Position>, axis: int)
    ensures
        i32::MIN <= axis_mean(samples, axis) <= i32::MAX,
{
    let count = samples.len() as int;
    if count > 0 {
        lemma_axis_sum_bounded(samples, axis, i32::MAX as int);
        lemma_axis_sum_at_least(samples, axis, i32::MIN as int);
        let total = axis_sum(samples, axis);
        if total >= 0 {
            assert(0 <= total / count <= 0x7fff_ffff) by (nonlinear_arith)
                requires
                    0 <= total <= count * 0x7fff_ffff,
                    count > 0,
            ;
        } else {
            assert(0 <= (-total) / count <= 0x8000_0000) by (nonlinear_arith)
                requires
                    0 <= -total <= count * 0x8000_0000,
                    count > 0,
            ;
        }
    }
}

/// Samples that all lie at or above a bound sum to at least their number
/// times the bound.
proof fn lemma_axis_sum_at_least(samples: Seq<Position>, axis: int, bound: int)
    requires
        forall|i: int| 0 <= i < samples.len() ==> coordinate(samples[i], axis) >= bound,
    ensures
        axis_sum(samples, axis) >= samples.len() * bound,
    decreases samples.len(),
{
    if samples.len() > 0 {
        lemma_axis_sum_at_least(samples.drop_last(), axis, bound);
        assert(samples.len() * bound == (samples.len() - 1) * bound + bound)
            by (nonlinear_arith);
    }
}

/// The samples never fall on the axis: each coordinate is at least the one
/// before it.
pub open spec fn never_falls(samples: Seq<Position>, axis: int) -> bool {
    forall|i: int, j: int|
        0 <= i <= j < samples.len() ==> coordinate(samples[i], axis) <= coordinate(
            samples[j],
            axis,
        )
}

/// Of two fractions with positive denominators and a numerator that is not
/// negative, the smaller has the smaller whole part.
proof fn lemma_whole_part_ordered(a: int, b: int, c: int, d: int)
    requires
        0 <= a,
        0 < b,
        0 < d,
        a * d <= c * b,
    ensures
        a / b <= c / d,
{
    let p = a / b;
    let q = c / d;
    assert(p * b <= a && 0 <= p) by (nonlinear_arith)
        requires
            p == a / b,
            0 <= a,
            0 < b,
    ;
    assert(0 <= c) by (nonlinear_arith)
        requires
            0 <= a,
            0 < b,
            0 < d,
            a * d <= c * b,
    ;
    assert(c < (q + 1) * d) by (nonlinear_arith)
        requires
            q == c / d,
            0 < d,
    ;
    if p > q {
        assert(p * b * d <= a * d) by (nonlinear_arith)
            requires
                p * b <= a,
                0 < d,
        ;
        assert((q + 1) * d * b <= p * b * d) by (nonlinear_arith)
            requires
                q + 1 <= p,
                0 < b,
                0 < d,
        ;
        assert(c * b < (q + 1) * d * b) by (nonlinear_arith)
            requires
                c < (q + 1) * d,
                0 < b,
        ;
    }
}

/// Truncating towards zero keeps the order of two fractions.
proof fn lemma_truncated_mean_ordered(a: int, b: int, c: int, d: int)
    requires
        0 < b,
        0 < d,
        a * d <= c * b,
    ensures
        truncated_mean(a, b) <= truncated_mean(c, d),
{
    if a >= 0 {
        assert(0 <= c) by (nonlinear_arith)
            requires
                0 <= a,
                0 < b,
                0 < d,
                a * d <= c * b,
        ;
        lemma_whole_part_ordered(a, b, c, d);
    } else if c >= 0 {
        assert(0 <= (-a) / b) by (nonlinear_arith)
            requires
                0 < -a,
                0 < b,
        ;
        assert(0 <= c / d) by (nonlinear_arith)
            requires
                0 <= c,
                0 < d,
        ;
    } else {
        assert((-c) * b <= (-a) * d) by (nonlinear_arith)
            requires
                a * d <= c * b,
        ;
        lemma_whole_part_ordered(-c, d, -a, b);
    }
}

/// Samples that are pairwise no greater have no greater a sum.
proof fn lemma_axis_sum_ordered(lower: Seq<Position>, upper: Seq<Position>, axis: int)
    requires
        lower.len() == upper.len(),
        forall|i: int|
            0 <= i < lower.len() ==> coordinate(lower[i], axis) <= coordinate(upper[i], axis),
    ensures
        axis_sum(lower, axis) <= axis_sum(upper, axis),
    decreases lower.len(),
{
    if lower.len() > 0 {
        lemma_axis_sum_ordered(lower.drop_last(), upper.drop_last(), axis);
    }
}

/// Samples that all lie at or below a bound sum to at most their number
/// times the bound.
proof fn lemma_axis_sum_bounded(samples: Seq<Position>, axis: int, bound: int)
    requires
        forall|i: int| 0 <= i < samples.len() ==> coordinate(samples[i], axis) <= bound,
    ensures
        axis_sum(samples, axis) <= samples.len() * bound,
    decreases samples.len(),
{
    if samples.len() > 0 {
        lemma_axis_sum_bounded(samples.drop_last(), axis, bound);
        assert(samples.len() * bound == (samples.len() - 1) * bound + bound)
            by (nonlinear_arith);
    }
}

/// One more sample that is no smaller than those before it does not lower
/// the smoothed position.
proof fn lemma_mean_after_one_more(inserted: Seq<Position>, capacity: nat, axis: int, n: int)
    requires
        never_falls(inserted, axis),
        1 <= n < inserted.len(),
    ensures
        axis_mean(window_after(inserted.take(n), capacity), axis) <= axis_mean(
            window_after(inserted.take(n + 1), capacity),
            axis,
        ),
{
    let shorter = inserted.take(n);
    let longer = inserted.take(n + 1);
    lemma_window_holds_last_samples(shorter, capacity);
    lemma_window_holds_last_samples(longer, capacity);
    let before = last_samples(shorter, capacity);
    let after = last_samples(longer, capacity);
    if n < capacity {
        assert(before == shorter);
        assert(after == longer);
        assert(longer.drop_last() =~= shorter);
        let newest = coordinate(inserted[n], axis);
        assert(longer.last() == inserted[n]);
        assert forall|i: int| 0 <= i < shorter.len() implies coordinate(shorter[i], axis)
            <= newest by {
            assert(shorter[i] == inserted[i]);
        }
        lemma_axis_sum_bounded(shorter, axis, newest);
        let total = axis_sum(shorter, axis);
        assert(axis_sum(longer, axis) == total + newest);
        assert(total * (n + 1) <= (total + newest) * n) by (nonlinear_arith)
            requires
                total <= n * newest,
                n >= 1,
        ;
        lemma_truncated_mean_ordered(total, n, total + newest, n + 1);
    } else {
        assert(before.len() == capacity);
        assert(after.len() == capacity);
        if capacity > 0 {
            assert forall|i: int| 0 <= i < before.len() implies coordinate(before[i], axis)
                <= coordinate(after[i], axis) by {
                assert(before[i] == inserted[n - capacity + i]);
                assert(after[i] == inserted[n + 1 - capacity + i]);
            }
            lemma_axis_sum_ordered(before, after, axis);
            let low = axis_sum(before, axis);
            let high = axis_sum(after, axis);
            assert(low * capacity <= high * capacity) by (nonlinear_arith)
                requires
                    low <= high,
                    capacity > 0,
            ;
            lemma_truncated_mean_ordered(low, capacity as int, high, capacity as int);
        }
    }
}

/// While the hand never moves back on an axis, the smoothed position never
/// moves back on it either, warm-up included.
pub proof fn lemma_mean_never_falls(
    inserted: Seq<Position>,
    capacity: nat,
    axis: int,
    earlier: int,
    later: int,
)
    requires
        never_falls(inserted, axis),
        1 <= earlier <= later <= inserted.len(),
    ensures
        axis_mean(window_after(inserted.take(earlier), capacity), axis) <= axis_mean(
            window_after(inserted.take(later), capacity),
            axis,
        ),
    decreases later - earlier,
{
    if earlier < later {
        lemma_mean_never_falls(inserted, capacity, axis, earlier, later - 1);
        lemma_mean_after_one_more(inserted, capacity, axis, later - 1);
    }
}

} // verus!
