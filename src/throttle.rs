//! When a redraw is due: at most one per update interval, on the first message
//! that arrives once the interval has elapsed since the last redraw.
use vstd::prelude::*;

verus! {

/// A redraw is due at `now` when at least `interval` has elapsed since `last`.
pub open spec fn render_due(last: u64, now: u64, interval: u64) -> bool {
    now >= last && now - last >= interval
}

/// The time of the last redraw after messages at `times`, starting from `last`.
pub open spec fn last_after(last: u64, interval: u64, times: Seq<u64>) -> u64
    decreases times.len(),
{
    if times.len() == 0 {
        last
    } else {
        let l = last_after(last, interval, times.drop_last());
        if render_due(l, times.last(), interval) {
            times.last()
        } else {
            l
        }
    }
}

/// The message at index `i` of `times` triggers a redraw.
pub open spec fn rendered_at(last: u64, interval: u64, times: Seq<u64>, i: int) -> bool {
    render_due(last_after(last, interval, times.subrange(0, i)), times[i], interval)
}

/// Message times that never go back.
pub open spec fn nondecreasing(times: Seq<u64>) -> bool {
    forall|i: int, j: int| 0 <= i <= j < times.len() ==> times[i] <= times[j]
}

/// The interval and the time of the last redraw.
pub struct Throttle {
    pub interval: u64,
    pub last_render: u64,
}

impl Throttle {
    /// A throttle whose first interval starts at `now`.
    pub fn new(interval: u64, now: u64) -> (r: Throttle)
        ensures
            r.interval == interval,
            r.last_render == now,
    {
        Throttle { interval, last_render: now }
    }

    /// Called for each message at time `now`: says whether a redraw is due, and
    /// if so makes `now` the time of the last redraw.
    pub fn check(&mut self, now: u64) -> (due: bool)
        ensures
            due == render_due(old(self).last_render, now, old(self).interval),
            final(self).interval == old(self).interval,
            final(self).last_render == if due { now } else { old(self).last_render },
    {
        if now >= self.last_render && now - self.last_render >= self.interval {
            self.last_render = now;
            true
        } else {
            false
        }
    }
}

proof fn lemma_last_after_prefix(last: u64, interval: u64, times: Seq<u64>, k: int)
    requires
        0 <= k < times.len(),
    ensures
        last_after(last, interval, times.subrange(0, k + 1)) == if rendered_at(last, interval, times, k) {
            times[k]
        } else {
            last_after(last, interval, times.subrange(0, k))
        },
{
    assert(times.subrange(0, k + 1).drop_last() =~= times.subrange(0, k));
}

proof fn lemma_last_after_stays(last: u64, interval: u64, times: Seq<u64>, i: int, k: int)
    requires
        nondecreasing(times),
        0 <= i < k <= times.len(),
        rendered_at(last, interval, times, i),
    ensures
        last_after(last, interval, times.subrange(0, k)) >= times[i],
    decreases k - i,
{
    lemma_last_after_prefix(last, interval, times, k - 1);
    if k - 1 > i {
        lemma_last_after_stays(last, interval, times, i, k - 1);
    }
}

/// Two redraws are at least one interval apart.
pub proof fn lemma_renders_spaced(last: u64, interval: u64, times: Seq<u64>, i: int, j: int)
    requires
        nondecreasing(times),
        0 <= i < j < times.len(),
        rendered_at(last, interval, times, i),
        rendered_at(last, interval, times, j),
    ensures
        times[j] - times[i] >= interval,
{
    lemma_last_after_stays(last, interval, times, i, j);
}

/// Among messages that arrive within one window shorter than the interval, at
/// most one triggers a redraw.
pub proof fn lemma_one_render_per_window(last: u64, interval: u64, times: Seq<u64>, w: int, i: int, j: int)
    requires
        nondecreasing(times),
        0 <= i < j < times.len(),
        w <= times[i],
        times[j] < w + interval,
    ensures
        !(rendered_at(last, interval, times, i) && rendered_at(last, interval, times, j)),
{
    if rendered_at(last, interval, times, i) && rendered_at(last, interval, times, j) {
        lemma_renders_spaced(last, interval, times, i, j);
    }
}

/// The message that arrives once the interval has elapsed since the last
/// redraw triggers one; a message before that does not.
pub proof fn lemma_render_on_elapsed(last: u64, interval: u64, times: Seq<u64>, i: int)
    requires
        0 <= i < times.len(),
    ensures
        rendered_at(last, interval, times, i) <==> (times[i] >= last_after(last, interval, times.subrange(0, i))
            && times[i] - last_after(last, interval, times.subrange(0, i)) >= interval),
{
}

} // verus!
