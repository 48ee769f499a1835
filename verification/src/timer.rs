//! A frame timer. Frame durations (in milliseconds) are collected into the
//! current batch; once the batch has been running for its fixed length, its
//! average is archived and a new batch starts. A paused timer re-bases itself
//! on the next frame instead of recording the pause as one long frame. The
//! timer works on caller-supplied clock readings, so its whole behaviour is a
//! function of those readings.

use vstd::prelude::*;

verus! {

/// Sum of a batch of durations.
pub open spec fn sum_of(s: Seq<u128>) -> int
    decreases s.len(),
{
    if s.len() == 0 {
        0
    } else {
        sum_of(s.drop_last()) + s.last()
    }
}

/// Average of a batch, rounded down; an empty batch averages to zero.
pub open spec fn avg_of(s: Seq<u128>) -> int {
    if s.len() == 0 {
        0
    } else {
        sum_of(s) / (s.len() as int)
    }
}

proof fn lemma_sum_prefix(s: Seq<u128>, j: int)
    requires
        0 <= j <= s.len(),
    ensures
        sum_of(s.subrange(0, j)) <= sum_of(s),
    decreases s.len() - j,
{
    if j == s.len() {
        assert(s.subrange(0, j) =~= s);
    } else {
        lemma_sum_prefix(s, j + 1);
        assert(s.subrange(0, j + 1).drop_last() =~= s.subrange(0, j));
        assert(sum_of(s.subrange(0, j + 1)) == sum_of(s.subrange(0, j)) + s[j]);
    }
}

/// The mathematical value of a `Timer`.
pub struct TimerView {
    pub reference: u128,
    pub last_update: u128,
    pub current_durations: Seq<u128>,
    pub average_durations: Seq<u128>,
    pub is_stopped: bool,
}

/// What one frame start does to the timer: a stopped timer only re-bases
/// itself on the new reading; otherwise, if the batch has been running for
/// its full length, the batch's average is archived and the batch cleared,
/// and in either case the elapsed time since the last update is recorded and
/// the update time advances.
pub open spec fn spec_start_frame(t: TimerView, now: u128) -> TimerView {
    if t.is_stopped {
        TimerView { reference: now, last_update: now, is_stopped: false, ..t }
    } else {
        let base = if now >= t.reference + 3000 {
            TimerView {
                current_durations: Seq::empty(),
                average_durations: t.average_durations.push(avg_of(t.current_durations) as u128),
                ..t
            }
        } else {
            t
        };
        TimerView {
            current_durations: base.current_durations.push((now - t.last_update) as u128),
            last_update: now,
            ..base
        }
    }
}

/// A frame timer batching frame durations and archiving batch averages.
pub struct Timer {
    reference: u128,
    last_update: u128,
    current_durations: Vec<u128>,
    average_durations: Vec<u128>,
    is_stopped: bool,
}

impl View for Timer {
    type V = TimerView;

    closed spec fn view(&self) -> TimerView {
        TimerView {
            reference: self.reference,
            last_update: self.last_update,
            current_durations: self.current_durations@,
            average_durations: self.average_durations@,
            is_stopped: self.is_stopped,
        }
    }
}

impl Timer {
    /// How long one batch runs before its average is archived.
    const BATCH_DURATION_SECS: usize = 3;

    /// The batch reference never lies after the last update.
    pub open spec fn wf(&self) -> bool {
        self@.reference <= self@.last_update
    }

    /// A fresh, running timer based at the given clock reading.
    pub fn new(now_ms: u128) -> (r: Self)
        ensures
            r@.reference == now_ms,
            r@.last_update == now_ms,
            r@.current_durations == Seq::<u128>::empty(),
            r@.average_durations == Seq::<u128>::empty(),
            !r@.is_stopped,
            r.wf(),
    {
        Timer {
            reference: now_ms,
            last_update: now_ms,
            current_durations: Vec::new(),
            average_durations: Vec::new(),
            is_stopped: false,
        }
    }

    /// Records the start of a frame at the given clock reading.
    pub fn start_frame(&mut self, now_ms: u128)
        requires
            old(self).wf(),
            now_ms >= old(self)@.last_update,
            now_ms + 3000 <= u128::MAX,
            sum_of(old(self)@.current_durations) <= u128::MAX,
        ensures
            final(self)@ == spec_start_frame(old(self)@, now_ms),
            final(self).wf(),
    {
        if self.is_stopped {
            self.reset(now_ms);
            return ;
        }
        let needs_new_batch = need_new_batch(now_ms, self.reference, Self::BATCH_DURATION_SECS);

        if needs_new_batch {
            self.finish_batch();
        }

        let elapsed = now_ms - self.last_update;
        self.current_durations.push(elapsed);
        self.last_update = now_ms;
    }

    /// Re-bases the timer on the given reading and lets it run again.
    fn reset(&mut self, now_ms: u128)
        ensures
            final(self)@ == (TimerView {
                reference: now_ms,
                last_update: now_ms,
                is_stopped: false,
                ..old(self)@
            }),
    {
        self.reference = now_ms;
        self.last_update = now_ms;
        self.is_stopped = false;
    }

    /// Stops the timer; the next frame start re-bases it.
    pub fn pause(&mut self)
        ensures
            final(self)@ == (TimerView { is_stopped: true, ..old(self)@ }),
    {
        self.is_stopped = true;
    }

    /// Archives the current batch's average and starts an empty batch.
    fn finish_batch(&mut self)
        requires
            sum_of(old(self)@.current_durations) <= u128::MAX,
        ensures
            final(self)@ == (TimerView {
                current_durations: Seq::empty(),
                average_durations: old(self)@.average_durations.push(
                    avg_of(old(self)@.current_durations) as u128,
                ),
                ..old(self)@
            }),
    {
        let avg = Self::durations_avg(self.current_durations.as_slice());
        self.current_durations = Vec::new();
        self.average_durations.push(avg);
    }

    /// The durations recorded in the running batch.
    pub fn current_durations(&self) -> (r: &Vec<u128>)
        ensures
            r@ == self@.current_durations,
    {
        &self.current_durations
    }

    /// The archived batch averages, oldest first.
    pub fn average_durations(&self) -> (r: &Vec<u128>)
        ensures
            r@ == self@.average_durations,
    {
        &self.average_durations
    }

    /// Whether the timer is stopped.
    pub fn is_stopped(&self) -> (r: bool)
        ensures
            r == self@.is_stopped,
    {
        self.is_stopped
    }

    /// Average of a list of durations, rounded down; zero for an empty list.
    fn durations_avg(durations: &[u128]) -> (r: u128)
        requires
            sum_of(durations@) <= u128::MAX,
        ensures
            r as int == avg_of(durations@),
    {
        let n = durations.len();
        let mut total: u128 = 0;
        let mut iters: u128 = 0;
        let mut i: usize = 0;
        while i < n
            invariant
                n == durations@.len(),
                i <= n,
                iters == i as u128,
                total == sum_of(durations@.subrange(0, i as int)),
                sum_of(durations@) <= u128::MAX,
            decreases n - i,
        {
            proof {
                lemma_sum_prefix(durations@, i + 1);
                assert(durations@.subrange(0, i + 1).drop_last() =~= durations@.subrange(
                    0,
                    i as int,
                ));
            }
            total = total + durations[i];
            iters = iters + 1;
            i = i + 1;
        }
        proof {
            assert(durations@.subrange(0, n as int) =~= durations@);
        }
        if iters == 0 {
            0
        } else {
            total / iters
        }
    }
}

/// Whether a batch that started at `batch_start_ms` has run for
/// `length_of_batch_sec` seconds by the reading `now_ms`.
fn need_new_batch(now_ms: u128, batch_start_ms: u128, length_of_batch_sec: usize) -> (r: bool)
    requires
        batch_start_ms + length_of_batch_sec * 1000 <= u128::MAX,
    ensures
        r == (batch_start_ms + length_of_batch_sec * 1000 <= now_ms),
{
    let target_moment = batch_start_ms + (length_of_batch_sec as u128) * 1000;
    if target_moment <= now_ms {
        return true;
    }
    false
}

} // verus!
