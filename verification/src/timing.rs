//! Fixed-step timing, and counters over a sliding window of time.
//!
//! Times and durations are counted in nanoseconds.

use vstd::arithmetic::div_mod::lemma_fundamental_div_mod_converse;
use std::collections::VecDeque;
use std::time::Duration;
use std::time::Instant;
use vstd::prelude::*;

verus! {

/// Accumulates elapsed time and reports when a whole step has passed.
#[derive(Debug)]
pub struct Stepper {
    pub dt: u128,
    pub step: u128,
}

impl Stepper {
    pub fn new(step: u128) -> (stepper: Self)
        ensures
            stepper.dt == 0,
            stepper.step == step,
    {
        Self { dt: 0, step }
    }

    /// Adds `dt` to the time accumulated. When that reaches a step, every
    /// whole step is consumed and `true` is returned; otherwise the time is
    /// kept and `false` is returned.
    pub fn advance(&mut self, dt: u128) -> (stepped: bool)
        requires
            old(self).step > 0,
            old(self).dt + dt <= u128::MAX,
        ensures
            final(self).step == old(self).step,
            stepped == (old(self).dt + dt >= old(self).step),
            final(self).dt == if stepped {
                ((old(self).dt + dt) % old(self).step as int) as u128
            } else {
                (old(self).dt + dt) as u128
            },
    {
        self.dt = self.dt + dt;
        let ghost total = self.dt as int;
        if self.dt >= self.step {
            let ghost mut steps: int = 0;
            loop
                invariant_except_break
                    self.dt >= self.step,
                invariant
                    self.step == old(self).step,
                    self.step > 0,
                    total == self.dt + steps * self.step,
                    0 <= steps,
                ensures
                    self.dt < self.step,
                decreases self.dt,
            {
                self.dt = self.dt - self.step;
                proof {
                    steps = steps + 1;
                    assert(total == self.dt + steps * self.step) by (nonlinear_arith)
                        requires
                            total == (self.dt + self.step) + (steps - 1) * self.step,
                    ;
                }
                if self.dt < self.step {
                    break;
                }
            }
            proof {
                lemma_fundamental_div_mod_converse(total, self.step as int, steps, self.dt as int);
            }
            true
        } else {
            false
        }
    }
}


/// After any advance, less than a step of time is left accumulated.
pub proof fn law_stepper_keeps_less_than_a_step(before_dt: u128, dt: u128, step: u128, stepped: bool, after_dt: u128)
    requires
        step > 0,
        stepped == (before_dt + dt >= step),
        after_dt == if stepped {
            ((before_dt + dt) % step as int) as u128
        } else {
            (before_dt + dt) as u128
        },
    ensures
        after_dt < step,
{
}

#[verifier::external_type_specification]
#[verifier::external_body]
pub struct ExInstant(std::time::Instant);

/// Calls `Instant::now`: a reading of the monotonic clock. Nothing is stated
/// of it.
#[verifier::external_body]
pub(crate) fn instant_now() -> Instant {
    Instant::now()
}

/// Calls `Instant::elapsed`: the time since `since`, read from the clock.
/// Nothing is stated of it.
#[verifier::external_body]
pub(crate) fn elapsed_since(since: &Instant) -> Duration {
    since.elapsed()
}

/// Calls `Duration::as_nanos`. `Duration` is opaque here, so nothing is
/// stated of the result.
#[verifier::external_body]
pub(crate) fn duration_as_nanos(duration: &Duration) -> u128 {
    duration.as_nanos()
}

/// One second, in nanoseconds.
pub const ONE_SECOND_NANOS: u128 = 1_000_000_000;

/// `time` lies more than `window` before `now`.
pub open spec fn is_stale(time: u128, now: u128, window: u128) -> bool {
    time < now && now - time > window
}

/// `times` with its leading entries dropped for as long as they are stale.
pub open spec fn drop_stale(times: Seq<u128>, now: u128, window: u128) -> Seq<u128>
    decreases times.len(),
{
    if times.len() > 0 && is_stale(times[0], now, window) {
        drop_stale(times.drop_first(), now, window)
    } else {
        times
    }
}

proof fn lemma_drop_stale_step(times: Seq<u128>, now: u128, window: u128)
    requires
        times.len() > 0,
        is_stale(times[0], now, window),
    ensures
        drop_stale(times, now, window) == drop_stale(times.drop_first(), now, window),
{
}

/// Drops from the front of `queue` the entries that are stale at `now`.
fn drop_stale_front(queue: &mut VecDeque<u128>, now: u128, window: u128)
    ensures
        final(queue)@ == drop_stale(old(queue)@, now, window),
{
    loop
        invariant
            drop_stale(queue@, now, window) == drop_stale(old(queue)@, now, window),
        ensures
            queue@ == drop_stale(old(queue)@, now, window),
        decreases queue@.len(),
    {
        if queue.len() > 0 && queue[0] < now && now - queue[0] > window {
            proof {
                lemma_drop_stale_step(queue@, now, window);
            }
            queue.pop_front();
        } else {
            break;
        }
    }
}

/// Times that never go back.
pub open spec fn nondecreasing(times: Seq<u128>) -> bool {
    forall|i: int, j: int| 0 <= i <= j < times.len() ==> times[i] <= times[j]
}

/// When ticks are counted in time order, every tick the counter keeps after
/// forgetting the stale ones lies within the window before `now`.
pub proof fn law_kept_ticks_are_recent(times: Seq<u128>, now: u128, window: u128)
    requires
        nondecreasing(times),
    ensures
        forall|i: int|
            0 <= i < drop_stale(times, now, window).len() ==> !is_stale(
                #[trigger] drop_stale(times, now, window)[i],
                now,
                window,
            ),
    decreases times.len(),
{
    if times.len() > 0 && is_stale(times[0], now, window) {
        let rest = times.drop_first();
        assert forall|i: int, j: int| 0 <= i <= j < rest.len() implies rest[i] <= rest[j] by {
            assert(rest[i] == times[i + 1] && rest[j] == times[j + 1]);
        }
        law_kept_ticks_are_recent(rest, now, window);
        assert(drop_stale(times, now, window) == drop_stale(rest, now, window));
    } else if times.len() > 0 {
        assert(drop_stale(times, now, window) == times);
        assert forall|i: int| 0 <= i < times.len() implies !is_stale(#[trigger] times[i], now, window) by {
            assert(times[0] <= times[i]);
        }
    }
}

/// Counts the frames drawn during the last second.
pub struct FPSCounter {
    pub origin: Instant,
    pub ticks: VecDeque<u128>,
}

impl FPSCounter {
    pub fn new() -> (counter: Self)
        ensures
            counter.ticks@.len() == 0,
    {
        Self { origin: instant_now(), ticks: VecDeque::with_capacity(256) }
    }

    /// Records a frame at `now` (nanoseconds since the counter's origin),
    /// forgets the frames recorded more than a second before, and gives
    /// the number of frames kept, this one included.
    pub fn tick_at(&mut self, now: u128) -> (frames: usize)
        ensures
            final(self).origin == old(self).origin,
            final(self).ticks@ == drop_stale(old(self).ticks@, now, ONE_SECOND_NANOS).push(now),
            frames == final(self).ticks@.len(),
    {
        drop_stale_front(&mut self.ticks, now, ONE_SECOND_NANOS);
        self.ticks.push_back(now);
        self.ticks.len()
    }

    /// Records a frame now, as `tick_at` does at the time read from the
    /// clock (nanoseconds since the counter's origin).
    pub fn tick(&mut self) -> (frames: usize)
        ensures
            final(self).origin == old(self).origin,
            exists|now: u128|
                final(self).ticks@ == #[trigger] drop_stale(old(self).ticks@, now, ONE_SECOND_NANOS).push(now),
            frames == final(self).ticks@.len(),
            frames >= 1,
    {
        let now = duration_as_nanos(&elapsed_since(&self.origin));
        self.tick_at(now)
    }
}

/// `samples` without its leading samples taken more than `window` before
/// `now`.
pub open spec fn drop_stale_samples(samples: Seq<(u128, u128)>, now: u128, window: u128) -> Seq<(u128, u128)>
    decreases samples.len(),
{
    if samples.len() > 0 && is_stale(samples[0].0, now, window) {
        drop_stale_samples(samples.drop_first(), now, window)
    } else {
        samples
    }
}

pub open spec fn sum_of(samples: Seq<(u128, u128)>) -> int
    decreases samples.len(),
{
    if samples.len() == 0 {
        0
    } else {
        sum_of(samples.drop_last()) + samples.last().1
    }
}

/// The time at which each sample was fed.
pub open spec fn sample_times(samples: Seq<(u128, u128)>) -> Seq<u128> {
    samples.map_values(|s: (u128, u128)| s.0)
}

/// Forgetting the stale leading ticks of ticks in time order keeps a suffix:
/// the ticks before it are stale, those in it are not.
proof fn lemma_drop_stale_suffix(times: Seq<u128>, now: u128, window: u128) -> (first: int)
    requires
        nondecreasing(times),
    ensures
        0 <= first <= times.len(),
        drop_stale(times, now, window) == times.subrange(first, times.len() as int),
        forall|i: int| 0 <= i < first ==> is_stale(#[trigger] times[i], now, window),
        forall|i: int| first <= i < times.len() ==> !is_stale(#[trigger] times[i], now, window),
    decreases times.len(),
{
    if times.len() > 0 && is_stale(times[0], now, window) {
        let rest = times.drop_first();
        assert forall|i: int, j: int| 0 <= i <= j < rest.len() implies rest[i] <= rest[j] by {
            assert(rest[i] == times[i + 1] && rest[j] == times[j + 1]);
        }
        let first_rest = lemma_drop_stale_suffix(rest, now, window);
        assert(rest.subrange(first_rest, rest.len() as int) =~= times.subrange(first_rest + 1, times.len() as int));
        assert forall|i: int| 0 <= i < first_rest + 1 implies is_stale(#[trigger] times[i], now, window) by {
            if i > 0 {
                assert(times[i] == rest[i - 1]);
            }
        }
        assert forall|i: int| first_rest + 1 <= i < times.len() implies !is_stale(#[trigger] times[i], now, window) by {
            assert(times[i] == rest[i - 1]);
        }
        first_rest + 1
    } else {
        assert(times.subrange(0, times.len() as int) =~= times);
        if times.len() > 0 {
            assert forall|i: int| 0 <= i < times.len() implies !is_stale(#[trigger] times[i], now, window) by {
                assert(times[0] <= times[i]);
            }
        }
        0
    }
}

/// The ticks a counter holds after ticking at each time of `history`, in
/// order, from no tick at all.
pub open spec fn ticks_after(history: Seq<u128>) -> Seq<u128>
    decreases history.len(),
{
    if history.len() == 0 {
        Seq::empty()
    } else {
        drop_stale(ticks_after(history.drop_last()), history.last(), ONE_SECOND_NANOS).push(history.last())
    }
}

/// A tick stale at some time is stale at every later time.
proof fn lemma_stale_stays_stale(time: u128, earlier: u128, later: u128, window: u128)
    requires
        earlier <= later,
        is_stale(time, earlier, window),
    ensures
        is_stale(time, later, window),
{
}

/// A frame counter ticked at times in order counts exactly the ticks of the
/// last second: after ticking at each time of `history`, it holds the ticks
/// from some point on, every tick before that point lies more than a second
/// before the last one, and none from it on does.
pub proof fn law_frame_count(history: Seq<u128>) -> (first: int)
    requires
        nondecreasing(history),
        history.len() > 0,
    ensures
        0 <= first < history.len(),
        ticks_after(history) == history.subrange(first, history.len() as int),
        forall|i: int| 0 <= i < first ==> is_stale(#[trigger] history[i], history.last(), ONE_SECOND_NANOS),
        forall|i: int|
            first <= i < history.len() ==> !is_stale(#[trigger] history[i], history.last(), ONE_SECOND_NANOS),
    decreases history.len(),
{
    let n = history.len() as int;
    let last = history.last();
    let before = history.drop_last();
    assert forall|i: int, j: int| 0 <= i <= j < before.len() implies before[i] <= before[j] by {
        assert(before[i] == history[i] && before[j] == history[j]);
    }
    if n == 1 {
        assert(before.len() == 0);
        assert(ticks_after(before) =~= Seq::<u128>::empty());
        assert(drop_stale(Seq::<u128>::empty(), last, ONE_SECOND_NANOS) =~= Seq::<u128>::empty());
        assert(ticks_after(history) =~= history.subrange(0, 1));
        0
    } else {
        let first_before = law_frame_count(before);
        let kept = ticks_after(before);
        assert forall|i: int, j: int| 0 <= i <= j < kept.len() implies kept[i] <= kept[j] by {
            assert(kept[i] == before[first_before + i] && kept[j] == before[first_before + j]);
        }
        let dropped = lemma_drop_stale_suffix(kept, last, ONE_SECOND_NANOS);
        let first = first_before + dropped;
        assert(kept.subrange(dropped, kept.len() as int) =~= history.subrange(first, n - 1));
        assert(ticks_after(history) =~= history.subrange(first, n));
        assert forall|i: int| 0 <= i < first implies is_stale(#[trigger] history[i], last, ONE_SECOND_NANOS) by {
            assert(history[i] == before[i]);
            assert(before[i] <= before.last());
            if i < first_before {
                lemma_stale_stays_stale(history[i], before.last(), last, ONE_SECOND_NANOS);
            } else {
                assert(kept[i - first_before] == before[i]);
            }
        }
        assert forall|i: int| first <= i < n implies !is_stale(#[trigger] history[i], last, ONE_SECOND_NANOS) by {
            if i < n - 1 {
                assert(kept[i - first_before] == history[i]);
            }
        }
        first
    }
}

/// Averages the durations (in nanoseconds) fed during a sliding window of
/// time.
pub struct Averager {
    pub origin: Instant,
    pub data: VecDeque<(u128, u128)>,
    pub duration: u128,
}

impl Averager {
    pub fn new(duration: u128) -> (averager: Self)
        ensures
            averager.data@.len() == 0,
            averager.duration == duration,
    {
        Self { origin: instant_now(), data: VecDeque::with_capacity(256), duration }
    }

    /// Feeds a sample at `now` (nanoseconds since the averager's origin),
    /// first forgetting the samples fed longer than the window before.
    pub fn feed_at(&mut self, now: u128, data: u128)
        ensures
            final(self).duration == old(self).duration,
            final(self).origin == old(self).origin,
            final(self).data@ == drop_stale_samples(old(self).data@, now, old(self).duration).push((now, data)),
    {
        loop
            invariant
                self.duration == old(self).duration,
                self.origin == old(self).origin,
                drop_stale_samples(self.data@, now, self.duration) == drop_stale_samples(
                    old(self).data@,
                    now,
                    old(self).duration,
                ),
            ensures
                self.duration == old(self).duration,
                self.origin == old(self).origin,
                self.data@ == drop_stale_samples(old(self).data@, now, old(self).duration),
            decreases self.data@.len(),
        {
            if self.data.len() > 0 && self.data[0].0 < now && now - self.data[0].0 > self.duration {
                self.data.pop_front();
            } else {
                break;
            }
        }
        self.data.push_back((now, data));
    }

    /// Feeds a sample now, as `feed_at` does at the time read from the clock
    /// (nanoseconds since the averager's origin).
    pub fn feed(&mut self, data: u128)
        ensures
            final(self).duration == old(self).duration,
            final(self).origin == old(self).origin,
            exists|now: u128|
                final(self).data@ == #[trigger] drop_stale_samples(old(self).data@, now, old(self).duration).push(
                    (now, data),
                ),
            final(self).data@.len() >= 1,
            final(self).data@.last().1 == data,
    {
        let now = duration_as_nanos(&elapsed_since(&self.origin));
        self.feed_at(now, data);
    }

    /// The mean of the samples kept, rounded down; zero when there are none.
    pub fn average(&self) -> (mean: u128)
        requires
            sum_of(self.data@) <= u128::MAX,
            self.data@.len() > 0 ==> self.data@.len() as u32 != 0,
        ensures
            mean == if self.data@.len() > 0 {
                sum_of(self.data@) / (self.data@.len() as u32) as int
            } else {
                0
            },
    {
        let len = self.data.len();
        if len > 0 {
            let mut total: u128 = 0;
            let mut k: usize = 0;
            while k < len
                invariant
                    len == self.data@.len(),
                    k <= len,
                    sum_of(self.data@) <= u128::MAX,
                    total == sum_of(self.data@.take(k as int)),
                decreases len - k,
            {
                proof {
                    lemma_sum_prefix_bounded(self.data@, (k + 1) as int);
                    assert(self.data@.take(k + 1).drop_last() =~= self.data@.take(k as int));
                }
                total = total + self.data[k].1;
                k = k + 1;
            }
            proof {
                assert(self.data@.take(len as int) =~= self.data@);
            }
            total / (len as u32) as u128
        } else {
            0
        }
    }

    /// The number of samples kept.
    pub fn ticks(&self) -> (count: usize)
        ensures
            count == self.data@.len(),
    {
        self.data.len()
    }
}

/// Samples fed at times that never go back.
pub open spec fn fed_in_order(samples: Seq<(u128, u128)>) -> bool {
    forall|i: int, j: int| 0 <= i <= j < samples.len() ==> samples[i].0 <= samples[j].0
}

/// Forgetting the stale leading samples of samples fed in order keeps a
/// suffix: the samples before it are stale, those in it are not.
proof fn lemma_drop_stale_samples_suffix(samples: Seq<(u128, u128)>, now: u128, window: u128) -> (first: int)
    requires
        fed_in_order(samples),
    ensures
        0 <= first <= samples.len(),
        drop_stale_samples(samples, now, window) == samples.subrange(first, samples.len() as int),
        forall|i: int| 0 <= i < first ==> is_stale((#[trigger] samples[i]).0, now, window),
        forall|i: int| first <= i < samples.len() ==> !is_stale((#[trigger] samples[i]).0, now, window),
    decreases samples.len(),
{
    if samples.len() > 0 && is_stale(samples[0].0, now, window) {
        let rest = samples.drop_first();
        assert forall|i: int, j: int| 0 <= i <= j < rest.len() implies rest[i].0 <= rest[j].0 by {
            assert(rest[i] == samples[i + 1] && rest[j] == samples[j + 1]);
        }
        let first_rest = lemma_drop_stale_samples_suffix(rest, now, window);
        assert(rest.subrange(first_rest, rest.len() as int) =~= samples.subrange(
            first_rest + 1,
            samples.len() as int,
        ));
        assert forall|i: int| 0 <= i < first_rest + 1 implies is_stale((#[trigger] samples[i]).0, now, window) by {
            if i > 0 {
                assert(samples[i] == rest[i - 1]);
            }
        }
        assert forall|i: int| first_rest + 1 <= i < samples.len() implies !is_stale(
            (#[trigger] samples[i]).0,
            now,
            window,
        ) by {
            assert(samples[i] == rest[i - 1]);
        }
        first_rest + 1
    } else {
        assert(samples.subrange(0, samples.len() as int) =~= samples);
        if samples.len() > 0 {
            assert forall|i: int| 0 <= i < samples.len() implies !is_stale((#[trigger] samples[i]).0, now, window) by {
                assert(samples[0].0 <= samples[i].0);
            }
        }
        0
    }
}

/// The samples an averager with the given window holds after being fed each
/// sample of `history` (time, value), in order, from no sample at all.
pub open spec fn samples_after(history: Seq<(u128, u128)>, window: u128) -> Seq<(u128, u128)>
    decreases history.len(),
{
    if history.len() == 0 {
        Seq::empty()
    } else {
        drop_stale_samples(samples_after(history.drop_last(), window), history.last().0, window).push(
            history.last(),
        )
    }
}

/// An averager fed at times in order keeps exactly the samples of its
/// window: after being fed each sample of `history`, it holds the samples
/// from some point on, every sample before that point was fed more than the
/// window before the last one, and none from it on was. So `ticks` counts
/// the feeds within the window.
pub proof fn law_averager_count(history: Seq<(u128, u128)>, window: u128) -> (first: int)
    requires
        fed_in_order(history),
        history.len() > 0,
    ensures
        0 <= first < history.len(),
        samples_after(history, window) == history.subrange(first, history.len() as int),
        forall|i: int| 0 <= i < first ==> is_stale((#[trigger] history[i]).0, history.last().0, window),
        forall|i: int|
            first <= i < history.len() ==> !is_stale((#[trigger] history[i]).0, history.last().0, window),
    decreases history.len(),
{
    let n = history.len() as int;
    let last = history.last().0;
    let before = history.drop_last();
    assert forall|i: int, j: int| 0 <= i <= j < before.len() implies before[i].0 <= before[j].0 by {
        assert(before[i] == history[i] && before[j] == history[j]);
    }
    if n == 1 {
        assert(samples_after(before, window) =~= Seq::<(u128, u128)>::empty());
        assert(drop_stale_samples(Seq::<(u128, u128)>::empty(), last, window) =~= Seq::<
            (u128, u128),
        >::empty());
        assert(samples_after(history, window) =~= history.subrange(0, 1));
        0
    } else {
        let first_before = law_averager_count(before, window);
        let kept = samples_after(before, window);
        assert forall|i: int, j: int| 0 <= i <= j < kept.len() implies kept[i].0 <= kept[j].0 by {
            assert(kept[i] == before[first_before + i] && kept[j] == before[first_before + j]);
        }
        let dropped = lemma_drop_stale_samples_suffix(kept, last, window);
        let first = first_before + dropped;
        assert(kept.subrange(dropped, kept.len() as int) =~= history.subrange(first, n - 1));
        assert(samples_after(history, window) =~= history.subrange(first, n));
        assert forall|i: int| 0 <= i < first implies is_stale((#[trigger] history[i]).0, last, window) by {
            assert(history[i] == before[i]);
            assert(before[i].0 <= before.last().0);
            if i < first_before {
                lemma_stale_stays_stale(history[i].0, before.last().0, last, window);
            } else {
                assert(kept[i - first_before] == before[i]);
            }
        }
        assert forall|i: int| first <= i < n implies !is_stale((#[trigger] history[i]).0, last, window) by {
            if i < n - 1 {
                assert(kept[i - first_before] == history[i]);
            }
        }
        first
    }
}

proof fn lemma_sum_prefix_bounded(samples: Seq<(u128, u128)>, n: int)
    requires
        0 <= n <= samples.len(),
    ensures
        sum_of(samples.take(n)) <= sum_of(samples),
    decreases samples.len(),
{
    if n < samples.len() {
        assert(samples.drop_last().take(n) =~= samples.take(n));
        lemma_sum_prefix_bounded(samples.drop_last(), n);
    } else {
        assert(samples.take(n) =~= samples);
    }
}

} // verus!
