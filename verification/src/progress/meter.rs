//! Running totals shared by the text-based reporters.

use crate::progress::speedometer;
use crate::progress::speedometer::read_rate;
use crate::progress::window;
use crate::progress::window::Window;
use crate::text;
use vstd::prelude::*;

verus! {

/// What a meter has counted.
pub struct Count {
    /// How many bytes there are in all.
    pub total: u64,
    /// How many have arrived.
    pub done: u64,
    /// When it started, in milliseconds.
    pub started: u64,
    /// When it was last drawn.
    pub last: u64,
    /// What the speed is read from.
    pub samples: Seq<(int, u64)>,
    /// The newest bucket of it.
    pub head: int,
}

impl Count {
    /// The milliseconds since the start.
    pub open spec fn elapsed(self, now: u64) -> u64 {
        if now >= self.started {
            (now - self.started) as u64
        } else {
            0
        }
    }

    /// The newest bucket once the window was aged to `now`.
    pub open spec fn head_at(self, now: u64) -> int {
        window::newest(self.head, (self.elapsed(now) / 100) as int)
    }

    /// The bytes per second at `now`.
    pub open spec fn rate_at(self, now: u64) -> nat {
        speedometer::rate_of(self.samples, self.head_at(now), self.elapsed(now))
    }

    /// The seconds until completion at the rate of `now`, or zero if that is unknown.
    pub open spec fn eta_at(self, now: u64) -> nat {
        if self.rate_at(now) > 0 && self.total > self.done {
            ((self.total - self.done) as nat) / self.rate_at(now)
        } else {
            0
        }
    }
}

/// How much of how many bytes have arrived, a windowed speedometer over those bytes, and a throttle so a fast
/// download does not spend its time printing. Times are in milliseconds.
pub struct Meter {
    total: u64,
    done: u64,
    started: u64,
    last: u64,
    window: Window,
}

impl View for Meter {
    type V = Count;

    closed spec fn view(&self) -> Count {
        Count {
            total: self.total,
            done: self.done,
            started: self.started,
            last: self.last,
            samples: self.window.samples(),
            head: self.window.head(),
        }
    }
}

impl Meter {
    /// The window is sound.
    pub closed spec fn wf(self) -> bool {
        self.window.wf()
    }

    /// Start on `total` bytes.
    pub fn new(total: u64, now: u64) -> (m: Meter)
        ensures
            m.wf(),
            m@ == (Count {
                total,
                done: 0,
                started: now,
                last: now,
                samples: Seq::empty(),
                head: 0,
            }),
    {
        Meter { total, done: 0, started: now, last: now, window: Window::new() }
    }

    /// How many bytes there are in all.
    pub fn total(&self) -> (n: u64)
        ensures
            n == self@.total,
    {
        self.total
    }

    /// How many have arrived.
    pub fn done(&self) -> (n: u64)
        ensures
            n == self@.done,
    {
        self.done
    }

    fn elapsed(&self, now: u64) -> (n: u64)
        ensures
            n == self@.elapsed(now),
    {
        now.saturating_sub(self.started)
    }

    /// Record `bytes` more of progress, feeding the speedometer too.
    pub fn add(&mut self, now: u64, bytes: u64)
        requires
            old(self).wf(),
            old(self)@.done + bytes <= u64::MAX,
        ensures
            final(self).wf(),
            final(self)@ == (Count {
                done: (old(self)@.done + bytes) as u64,
                samples: old(self)@.samples.push(
                    (
                        window::landing(
                            (old(self)@.elapsed(now) / 100) as int,
                            old(self)@.head_at(now),
                        ),
                        bytes,
                    ),
                ),
                head: old(self)@.head_at(now),
                ..old(self)@
            }),
    {
        let elapsed = self.elapsed(now);
        self.done = self.done + bytes;
        self.window.add(elapsed / 100, bytes);
    }

    /// Account for `bytes` already present at the start of a resumed download. They count toward the readout
    /// total but not the speedometer, since they did not arrive over the network this run.
    pub fn restore(&mut self, bytes: u64)
        requires
            old(self).wf(),
            old(self)@.done + bytes <= u64::MAX,
        ensures
            final(self).wf(),
            final(self)@ == (Count { done: (old(self)@.done + bytes) as u64, ..old(self)@ }),
    {
        self.done = self.done + bytes;
    }

    /// Whether enough time has passed since the last redraw to draw again.
    pub fn ready(&mut self, now: u64, every: u64) -> (r: bool)
        requires
            old(self).wf(),
        ensures
            final(self).wf(),
            r == (every == 0 || now - old(self)@.last >= every),
            final(self)@ == if r {
                (Count { last: now, ..old(self)@ })
            } else {
                old(self)@
            },
    {
        if now.saturating_sub(self.last) < every {
            return false;
        }
        self.last = now;
        true
    }

    /// Record `bytes` more and report whether enough time has passed to redraw.
    pub fn advance(&mut self, now: u64, bytes: u64, every: u64) -> (r: bool)
        requires
            old(self).wf(),
            old(self)@.done + bytes <= u64::MAX,
        ensures
            final(self).wf(),
            r == (every == 0 || now - old(self)@.last >= every),
            final(self)@.done == old(self)@.done + bytes,
            final(self)@.total == old(self)@.total,
            final(self)@.started == old(self)@.started,
            final(self)@.last == if r {
                now
            } else {
                old(self)@.last
            },
            final(self)@.head == old(self)@.head_at(now),
            final(self)@.samples == old(self)@.samples.push(
                (
                    window::landing(
                        (old(self)@.elapsed(now) / 100) as int,
                        old(self)@.head_at(now),
                    ),
                    bytes,
                ),
            ),
    {
        self.add(now, bytes);
        self.ready(now, every)
    }

    /// Bytes per second across the recent window. The speedometer ages its window forward to now on read, so a
    /// stall decays instead of freezing.
    pub fn rate(&mut self, now: u64) -> (rate: u64)
        requires
            old(self).wf(),
        ensures
            final(self).wf(),
            final(self)@ == (Count { head: old(self)@.head_at(now), ..old(self)@ }),
            rate == old(self)@.rate_at(now),
    {
        let elapsed = self.elapsed(now);
        read_rate(&mut self.window, elapsed)
    }

    /// Seconds until completion at the current rate, or `0` if unknown.
    pub fn eta(&mut self, now: u64) -> (eta: u64)
        requires
            old(self).wf(),
        ensures
            final(self).wf(),
            final(self)@ == (Count { head: old(self)@.head_at(now), ..old(self)@ }),
            eta == old(self)@.eta_at(now),
    {
        let rate = self.rate(now);
        if rate > 0 && self.total > self.done {
            (self.total - self.done) / rate
        } else {
            0
        }
    }

    /// Percent complete, `0` when the total is unknown.
    pub fn percent(&self) -> (percent: u64)
        ensures
            percent as nat == if self@.total == 0 {
                0
            } else {
                window::cap((100 * self@.done) as nat) / (self@.total as nat)
            },
    {
        if self.total == 0 {
            return 0;
        }
        let scaled: u64 = match self.done.checked_mul(100) {
            Some(scaled) => scaled,
            None => u64::MAX,
        };
        scaled / self.total
    }

    /// The ETA as a `MM:SS` clock (minutes may exceed 59 for a long transfer).
    pub fn eta_clock(&mut self, now: u64) -> (clock: String)
        requires
            old(self).wf(),
        ensures
            final(self).wf(),
            final(self)@ == (Count { head: old(self)@.head_at(now), ..old(self)@ }),
            clock@ == text::model::two_digits(old(self)@.eta_at(now) / 60) + seq![':']
                + text::model::two_digits(old(self)@.eta_at(now) % 60),
    {
        let eta = self.eta(now);
        let mut clock = String::new();
        text::push_two_digits(&mut clock, eta / 60);
        clock.push(':');
        text::push_two_digits(&mut clock, eta % 60);
        assert(clock@ =~= text::model::two_digits(old(self)@.eta_at(now) / 60) + seq![':']
            + text::model::two_digits(old(self)@.eta_at(now) % 60));
        clock
    }

    /// Milliseconds since the transfer started.
    pub fn elapsed_ms(&self, now: u64) -> (n: u64)
        ensures
            n == self@.elapsed(now),
    {
        self.elapsed(now)
    }
}

/// The sum of chunk sizes.
pub open spec fn sum_of(sizes: Seq<u64>) -> nat
    decreases sizes.len(),
{
    if sizes.len() == 0 {
        0
    } else {
        sum_of(sizes.drop_last()) + sizes.last() as nat
    }
}

/// The sum of chunk sizes, which has to fit.
pub fn total_of(sizes: &[u64]) -> (total: u64)
    requires
        sum_of(sizes@) <= u64::MAX,
    ensures
        total == sum_of(sizes@),
{
    let mut total: u64 = 0;
    let mut i: usize = 0;
    while i < sizes.len()
        invariant
            i <= sizes.len(),
            total == sum_of(sizes@.take(i as int)),
            sum_of(sizes@) <= u64::MAX,
        decreases sizes.len() - i,
    {
        proof {
            assert(sizes@.take(i + 1).drop_last() =~= sizes@.take(i as int));
            lemma_sum_grows(sizes@, i + 1);
        }
        total = total + sizes[i];
        i += 1;
    }
    assert(sizes@.take(i as int) =~= sizes@);
    total
}

proof fn lemma_sum_grows(sizes: Seq<u64>, i: int)
    requires
        0 <= i <= sizes.len(),
    ensures
        sum_of(sizes.take(i)) <= sum_of(sizes),
    decreases sizes.len() - i,
{
    if i == sizes.len() {
        assert(sizes.take(i) =~= sizes);
    } else {
        lemma_sum_grows(sizes, i + 1);
        assert(sizes.take(i + 1).drop_last() =~= sizes.take(i));
    }
}

/// Bytes that were already there never enter a speed estimate: restoring them leaves the rate as it is.
pub proof fn law_restored_bytes_have_no_speed(before: Count, after: Count, bytes: u64, now: u64)
    requires
        after == (Count { done: (before.done + bytes) as u64, ..before }),
    ensures
        after.rate_at(now) == before.rate_at(now),
{
}

} // verus!
