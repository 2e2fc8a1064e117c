//! The sample histories behind the usage graphs: each keeps the most recent
//! samples, at most a fixed number of them, oldest first.

use vstd::prelude::*;

verus! {

/// How many samples each history keeps: one minute at one sample a second.
pub const HISTORY_POINTS: usize = 60;

/// Whether the histories are due for a refresh: the time since the last one
/// has reached the refresh interval (both in milliseconds).
pub fn refresh_due(elapsed_ms: u64, interval_ms: u64) -> (due: bool)
    ensures
        due == (elapsed_ms >= interval_ms),
{
    elapsed_ms >= interval_ms
}

/// When the histories were last refreshed and how often they are, in
/// milliseconds of a clock that only moves forward.
#[derive(Clone, Copy, PartialEq, Eq, Structural, Debug)]
pub struct RefreshTimer {
    pub interval_ms: u64,
    pub last_ms: u64,
}

impl RefreshTimer {
    /// The time since the last refresh at `now_ms` (none before it).
    pub open spec fn elapsed_at(self, now_ms: u64) -> int {
        if now_ms >= self.last_ms {
            now_ms - self.last_ms
        } else {
            0
        }
    }

    /// A refresh is due at `now_ms`.
    pub open spec fn due_at(self, now_ms: u64) -> bool {
        self.elapsed_at(now_ms) >= self.interval_ms
    }

    /// A timer that counts from `now_ms`.
    pub fn new(interval_ms: u64, now_ms: u64) -> (t: Self)
        ensures
            t.interval_ms == interval_ms,
            t.last_ms == now_ms,
    {
        RefreshTimer { interval_ms, last_ms: now_ms }
    }

    /// Whether a refresh is due at `now_ms`.
    pub fn is_due(&self, now_ms: u64) -> (due: bool)
        ensures
            due == self.due_at(now_ms),
    {
        let elapsed: u64 = if now_ms >= self.last_ms {
            now_ms - self.last_ms
        } else {
            0
        };
        refresh_due(elapsed, self.interval_ms)
    }

    /// Notes a refresh that finished at `now_ms`.
    pub fn restart(&mut self, now_ms: u64)
        ensures
            final(self).interval_ms == old(self).interval_ms,
            final(self).last_ms == now_ms,
    {
        self.last_ms = now_ms;
    }
}

/// Two refreshes in a row act as one: a timer restarted when a refresh
/// finished (`restart` sets `last_ms`) is not due again before the interval
/// has passed.
pub proof fn law_refresh_not_due_again(timer: RefreshTimer, now_ms: u64)
    requires
        timer.interval_ms > 0,
        timer.last_ms <= now_ms,
        now_ms < timer.last_ms + timer.interval_ms,
    ensures
        !timer.due_at(now_ms),
{
}

/// When a refresh is due, in the clock's own numbers: once the interval has
/// passed since the last refresh, however late the check comes, and not
/// before; a timer that is due stays due as time goes on until restarted.
pub proof fn law_due_once_interval_passed(timer: RefreshTimer, now_ms: u64, later_ms: u64)
    ensures
        now_ms >= timer.last_ms + timer.interval_ms ==> timer.due_at(now_ms),
        timer.last_ms <= now_ms < timer.last_ms + timer.interval_ms ==> !timer.due_at(now_ms),
        now_ms < timer.last_ms ==> (timer.due_at(now_ms) == (timer.interval_ms == 0)),
        timer.due_at(now_ms) && now_ms <= later_ms ==> timer.due_at(later_ms),
{
}

/// A history after a new sample: the sample is appended, and the oldest one
/// is dropped when that makes the history longer than `max`.
pub open spec fn bounded_push<T>(history: Seq<T>, sample: T, max: nat) -> Seq<T> {
    let pushed = history.push(sample);
    if pushed.len() > max {
        pushed.drop_first()
    } else {
        pushed
    }
}

/// Appends a sample and drops the oldest one if the history grew past `max`.
pub fn push_bounded<T>(history: &mut Vec<T>, sample: T, max: usize)
    ensures
        final(history)@ == bounded_push(old(history)@, sample, max as nat),
{
    history.push(sample);
    if history.len() > max {
        let ghost pushed = history@;
        history.remove(0);
        assert(history@ =~= pushed.drop_first());
    }
}

/// A history that is no longer than `max` stays so after a sample; its last
/// sample is the new one, and it is what the history with the sample
/// appended ends with.
pub proof fn law_bounded_push<T>(history: Seq<T>, sample: T, max: nat)
    requires
        history.len() <= max,
        max > 0,
    ensures
        history.len() < max ==> bounded_push(history, sample, max) == history.push(sample),
        history.len() == max ==> bounded_push(history, sample, max) == history.subrange(1, max as int).push(sample),
        bounded_push(history, sample, max).len() <= max,
        bounded_push(history, sample, max).last() == sample,
        history.push(sample).subrange(
            history.len() + 1 - bounded_push(history, sample, max).len(),
            history.len() + 1int,
        ) == bounded_push(history, sample, max),
{
    let pushed = history.push(sample);
    if pushed.len() > max {
        assert(pushed.drop_first() =~= history.subrange(1, max as int).push(sample));
        assert(pushed.subrange(1, history.len() + 1int) =~= pushed.drop_first());
    } else {
        assert(pushed.subrange(0, history.len() + 1int) =~= pushed);
    }
}

/// The usage histories of the explorer: overall CPU and memory for the
/// status bar, one CPU history per core and a memory history for the system
/// window.
pub struct Histories<T> {
    pub cpu: Vec<T>,
    pub memory: Vec<T>,
    pub cores: Vec<Vec<T>>,
    pub window_memory: Vec<T>,
    pub max_points: usize,
}

/// The per-core history `i` before a refresh, or an empty one for a core
/// that had none.
pub open spec fn core_before<T>(cores: Seq<Vec<T>>, i: int) -> Seq<T> {
    if i < cores.len() {
        cores[i]@
    } else {
        Seq::empty()
    }
}

impl<T: Copy> Histories<T> {
    /// Every history is at most `max_points` long.
    pub open spec fn within_bounds(&self) -> bool {
        &&& self.cpu@.len() <= self.max_points
        &&& self.memory@.len() <= self.max_points
        &&& self.window_memory@.len() <= self.max_points
        &&& forall|i: int| 0 <= i < self.cores@.len() ==> #[trigger] self.cores@[i]@.len() <= self.max_points
    }

    /// Empty histories for a machine that reports `cpu_count` CPUs; at least
    /// one per-core history is made even where none is reported.
    pub fn new(cpu_count: usize) -> (h: Self)
        ensures
            h.within_bounds(),
            h.max_points == HISTORY_POINTS,
            h.cpu@.len() == 0,
            h.memory@.len() == 0,
            h.window_memory@.len() == 0,
            h.cores@.len() == if cpu_count > 1 { cpu_count } else { 1 },
            forall|i: int| 0 <= i < h.cores@.len() ==> #[trigger] h.cores@[i]@.len() == 0,
    {
        let count: usize = if cpu_count > 1 {
            cpu_count
        } else {
            1
        };
        let mut cores: Vec<Vec<T>> = Vec::new();
        while cores.len() < count
            invariant
                cores@.len() <= count,
                forall|i: int| 0 <= i < cores@.len() ==> #[trigger] cores@[i]@.len() == 0,
            decreases count - cores@.len(),
        {
            cores.push(Vec::new());
        }
        Histories {
            cpu: Vec::new(),
            memory: Vec::new(),
            cores,
            window_memory: Vec::new(),
            max_points: HISTORY_POINTS,
        }
    }

    /// Records one refresh: the overall CPU usage, the memory usage and one
    /// sample per CPU core. Missing per-core histories are added first, so
    /// that every reported core has one.
    pub fn record(&mut self, cpu: T, memory: T, core_samples: &Vec<T>)
        ensures
            old(self).within_bounds() ==> final(self).within_bounds(),
            final(self).max_points == old(self).max_points,
            final(self).cpu@ == bounded_push(old(self).cpu@, cpu, old(self).max_points as nat),
            final(self).memory@ == bounded_push(old(self).memory@, memory, old(self).max_points as nat),
            final(self).window_memory@ == bounded_push(
                old(self).window_memory@,
                memory,
                old(self).max_points as nat,
            ),
            final(self).cores@.len() == if old(self).cores@.len() < core_samples@.len() {
                core_samples@.len()
            } else {
                old(self).cores@.len()
            },
            forall|i: int|
                0 <= i < core_samples@.len() ==> #[trigger] final(self).cores@[i]@ == bounded_push(
                    core_before(old(self).cores@, i),
                    core_samples@[i],
                    old(self).max_points as nat,
                ),
            forall|i: int|
                core_samples@.len() <= i < old(self).cores@.len() ==> #[trigger] final(self).cores@[i]
                    == old(self).cores@[i],
            forall|i: int|
                0 <= i < core_samples@.len() && i < old(self).cores@.len() ==> #[trigger] final(self).cores@[i]@
                    == bounded_push(old(self).cores@[i]@, core_samples@[i], old(self).max_points as nat),
            forall|i: int|
                old(self).cores@.len() <= i < core_samples@.len() && old(self).max_points > 0
                    ==> #[trigger] final(self).cores@[i]@ == seq![core_samples@[i]],
    {
        let max = self.max_points;
        push_bounded(&mut self.cpu, cpu, max);
        push_bounded(&mut self.memory, memory, max);
        let ghost start = self.cores@;
        let mut cores: Vec<Vec<T>> = Vec::new();
        std::mem::swap(&mut cores, &mut self.cores);
        while cores.len() < core_samples.len()
            invariant
                start.len() <= cores@.len() <= if start.len() < core_samples@.len() {
                    core_samples@.len()
                } else {
                    start.len()
                },
                forall|i: int| 0 <= i < start.len() ==> #[trigger] cores@[i] == start[i],
                forall|i: int| start.len() <= i < cores@.len() ==> #[trigger] cores@[i]@.len() == 0,
            decreases core_samples@.len() - cores@.len(),
        {
            cores.push(Vec::new());
        }
        let ghost grown = cores@;
        let mut i: usize = 0;
        while i < core_samples.len()
            invariant
                i <= core_samples@.len(),
                core_samples@.len() <= cores@.len(),
                cores@.len() == grown.len(),
                forall|j: int| 0 <= j < start.len() ==> #[trigger] grown[j] == start[j],
                forall|j: int| start.len() <= j < grown.len() ==> #[trigger] grown[j]@.len() == 0,
                forall|j: int|
                    0 <= j < i ==> #[trigger] cores@[j]@ == bounded_push(
                        core_before(start, j),
                        core_samples@[j],
                        max as nat,
                    ),
                forall|j: int| i <= j < cores@.len() ==> #[trigger] cores@[j] == grown[j],
            decreases core_samples@.len() - i,
        {
            let mut one: Vec<T> = Vec::new();
            cores.set_and_swap(i, &mut one);
            assert(one@ == core_before(start, i as int)) by {
                if (i as int) >= start.len() {
                    assert(one@ =~= Seq::<T>::empty());
                }
            }
            push_bounded(&mut one, core_samples[i], max);
            cores.set_and_swap(i, &mut one);
            i += 1;
        }
        proof {
            assert forall|j: int|
                0 <= j < cores@.len() && (forall|i: int|
                    0 <= i < start.len() ==> #[trigger] start[i]@.len() <= max) implies #[trigger] cores@[j]@.len()
                <= max by {
                if j < core_samples@.len() {
                    assert(cores@[j]@ == bounded_push(core_before(start, j), core_samples@[j], max as nat));
                    if j < start.len() {
                        assert(start[j]@.len() <= max);
                    }
                } else {
                    assert(cores@[j] == grown[j]);
                    if j < start.len() {
                        assert(start[j]@.len() <= max);
                    }
                }
            }
        }
        proof {
            assert forall|j: int|
                start.len() <= j < core_samples@.len() && max > 0 implies #[trigger] cores@[j]@ == seq![
                core_samples@[j],
            ] by {
                assert(core_before(start, j) =~= Seq::<T>::empty());
                assert(cores@[j]@ == bounded_push(core_before(start, j), core_samples@[j], max as nat));
                assert(Seq::<T>::empty().push(core_samples@[j]) =~= seq![core_samples@[j]]);
            }
        }
        self.cores = cores;
        push_bounded(&mut self.window_memory, memory, max);
    }
}

} // verus!
