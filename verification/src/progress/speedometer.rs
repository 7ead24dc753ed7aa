//! The download rate over the last few seconds.

use crate::progress::window;
use crate::progress::window::Window;
use vstd::prelude::*;

verus! {

/// The milliseconds one bucket spans.
pub const BUCKET_MS: u64 = 100;

/// The milliseconds the whole window spans.
pub const WINDOW_MS: u64 = 3000;

/// The nanoseconds one bucket spans.
pub const BUCKET_NS: u64 = 100000000;

/// The nanoseconds the whole window spans.
pub const WINDOW_NS: u64 = 3000000000;

/// A number held between two bounds.
pub open spec fn clamped(n: int, low: int, high: int) -> int {
    if n < low {
        low
    } else if n > high {
        high
    } else {
        n
    }
}

/// Bytes per second: the bytes inside the window over the span they cover, in milliseconds. The span is at
/// least one bucket, so the first slice does not divide by a near-zero span and spike, and at most the window
/// once it has filled.
pub open spec fn rate_of(samples: Seq<(int, u64)>, head: int, elapsed: u64) -> nat {
    let sum = window::cap(window::since(samples, head - 29));
    window::cap(1000 * sum) / (clamped(elapsed as int, 100, 3000) as nat)
}

/// How long it has been since `started`, by a clock that says `now`: nothing where it ran backwards.
pub open spec fn since(started: u64, now: u64) -> u64 {
    if now < started {
        0
    } else {
        (now - started) as u64
    }
}

/// The clock a speedometer reads, injected at construction so the window and its decay are testable without
/// sleeping: milliseconds since some fixed moment.
pub trait Clock {
    /// The time now, in milliseconds.
    fn now(&self) -> u64;
}

/// A sliding-window speedometer. Two things a lifetime average gets wrong and this does not: a sub-second
/// transfer reads its true rate (not its bytes over a one-second floor), and a stall decays the reading
/// toward zero instead of freezing it at the last value, because the window is aged to the read clock, not
/// the write clock.
pub struct Speedometer<C: Clock> {
    clock: C,
    started: u64,
    window: Window,
}

impl<C: Clock> Speedometer<C> {
    /// What was counted so far.
    pub closed spec fn samples(self) -> Seq<(int, u64)> {
        self.window.samples()
    }

    /// The newest bucket.
    pub closed spec fn head(self) -> int {
        self.window.head()
    }

    /// The window is sound.
    pub closed spec fn wf(self) -> bool {
        self.window.wf()
    }

    /// What the clock said at the start.
    pub closed spec fn started(self) -> u64 {
        self.started
    }

    /// Whether counting `bytes` when the clock says `now` leads from `before` to this.
    pub open spec fn counted(self, before: Self, now: u64, bytes: u64) -> bool {
        let bucket = since(before.started(), now) as int / 100;
        &&& self.started() == before.started()
        &&& self.head() == window::newest(before.head(), bucket)
        &&& self.samples() == before.samples().push((window::landing(bucket, self.head()), bytes))
    }

    /// Whether reading the rate when the clock says `now` gives `rate` and leads from `before` to this.
    pub open spec fn read(self, before: Self, now: u64, rate: u64) -> bool {
        let elapsed = since(before.started(), now);
        &&& self.started() == before.started()
        &&& self.samples() == before.samples()
        &&& self.head() == window::newest(before.head(), elapsed as int / 100)
        &&& rate == rate_of(self.samples(), self.head(), elapsed)
    }

    /// Start now, by `clock`.
    pub fn with_clock(clock: C) -> (s: Speedometer<C>)
        ensures
            s.wf(),
            s.samples() == Seq::<(int, u64)>::empty(),
            s.head() == 0,
    {
        let now = clock.now();
        Self::starting(clock, now)
    }

    /// Start when `clock` says `now`.
    pub fn starting(clock: C, now: u64) -> (s: Speedometer<C>)
        ensures
            s.wf(),
            s.started() == now,
            s.samples() == Seq::<(int, u64)>::empty(),
            s.head() == 0,
    {
        Speedometer { clock, started: now, window: Window::new() }
    }

    /// Count `bytes` at `elapsed` milliseconds since the start.
    pub fn add_at(&mut self, elapsed: u64, bytes: u64)
        requires
            old(self).wf(),
        ensures
            final(self).wf(),
            final(self).started() == old(self).started(),
            final(self).head() == window::newest(old(self).head(), (elapsed / 100) as int),
            final(self).samples() == old(self).samples().push(
                (window::landing((elapsed / 100) as int, final(self).head()), bytes),
            ),
    {
        self.window.add(elapsed / BUCKET_MS, bytes);
    }

    /// Bytes per second across the window, aged to `elapsed` milliseconds since the start.
    pub fn rate_at(&mut self, elapsed: u64) -> (rate: u64)
        requires
            old(self).wf(),
        ensures
            final(self).wf(),
            final(self).started() == old(self).started(),
            final(self).samples() == old(self).samples(),
            final(self).head() == window::newest(old(self).head(), (elapsed / 100) as int),
            rate == rate_of(final(self).samples(), final(self).head(), elapsed),
    {
        read_rate(&mut self.window, elapsed)
    }

    /// Count `bytes` when the clock says `now`.
    pub fn add_by(&mut self, now: u64, bytes: u64)
        requires
            old(self).wf(),
        ensures
            final(self).wf(),
            final(self).counted(*old(self), now, bytes),
    {
        let elapsed = now.saturating_sub(self.started);
        self.add_at(elapsed, bytes);
    }

    /// Bytes per second across the window, when the clock says `now`.
    pub fn rate_by(&mut self, now: u64) -> (rate: u64)
        requires
            old(self).wf(),
        ensures
            final(self).wf(),
            final(self).read(*old(self), now, rate),
    {
        let elapsed = now.saturating_sub(self.started);
        self.rate_at(elapsed)
    }

    /// Count `bytes` at the current time, whatever the clock says it is.
    pub fn add(&mut self, bytes: u64)
        requires
            old(self).wf(),
        ensures
            final(self).wf(),
            exists|now: u64| #[trigger] final(self).counted(*old(self), now, bytes),
    {
        let now = self.clock.now();
        self.add_by(now, bytes);
    }

    /// Bytes per second across the window, aged to now, whatever the clock says it is. A stall slides empty
    /// buckets in and shrinks the sum, so the rate decays to zero over one window; there is no cached value
    /// that can go stale.
    pub fn rate(&mut self) -> (rate: u64)
        requires
            old(self).wf(),
        ensures
            final(self).wf(),
            exists|now: u64| #[trigger] final(self).read(*old(self), now, rate),
    {
        let now = self.clock.now();
        self.rate_by(now)
    }
}

/// Age a window to `elapsed` milliseconds since its start, and read its rate.
pub fn read_rate(window: &mut Window, elapsed: u64) -> (rate: u64)
    requires
        old(window).wf(),
    ensures
        final(window).wf(),
        final(window).samples() == old(window).samples(),
        final(window).head() == window::newest(old(window).head(), (elapsed / 100) as int),
        rate == rate_of(final(window).samples(), final(window).head(), elapsed),
{
    // Age the window forward to read time before summing, so an idle period is reflected even when no bytes
    // came since. This is what makes a stall decay by construction.
    window.roll_to(elapsed / BUCKET_MS);
    let sum = window.sum();
    let span: u64 = if elapsed < BUCKET_MS {
        BUCKET_MS
    } else if elapsed > WINDOW_MS {
        WINDOW_MS
    } else {
        elapsed
    };
    let scaled: u64 = match sum.checked_mul(1000) {
        Some(scaled) => scaled,
        None => u64::MAX,
    };
    scaled / span
}

/// A speedometer that keeps its last reading: bytes are recorded at a given time since the start, and the
/// reading is the rate as of the last record.
pub struct Gauge {
    window: Window,
    current: u64,
}

/// Bytes per second over a span in nanoseconds.
pub open spec fn gauged(samples: Seq<(int, u64)>, head: int, elapsed: u64) -> nat {
    let sum = window::cap(window::since(samples, head - 29));
    window::cap((1000000000 * sum) / (clamped(elapsed as int, 100000000, 3000000000) as nat))
}

impl Gauge {
    /// What was counted so far.
    pub closed spec fn samples(self) -> Seq<(int, u64)> {
        self.window.samples()
    }

    /// The newest bucket.
    pub closed spec fn head(self) -> int {
        self.window.head()
    }

    /// The last reading.
    pub closed spec fn current(self) -> u64 {
        self.current
    }

    /// The window is sound.
    pub closed spec fn wf(self) -> bool {
        self.window.wf()
    }

    /// Nothing recorded, and a reading of zero.
    pub fn new() -> (g: Gauge)
        ensures
            g.wf(),
            g.samples() == Seq::<(int, u64)>::empty(),
            g.head() == 0,
            g.current() == 0,
    {
        Gauge { window: Window::new(), current: 0 }
    }

    /// Add `bytes` at `elapsed` nanoseconds since the start: drop them in their bucket, age out anything older
    /// than the window, and recompute the windowed rate.
    pub fn record(&mut self, elapsed: u64, bytes: u64)
        requires
            old(self).wf(),
        ensures
            final(self).wf(),
            final(self).head() == window::newest(old(self).head(), (elapsed / 100000000) as int),
            final(self).samples() == old(self).samples().push(
                (window::landing((elapsed / 100000000) as int, final(self).head()), bytes),
            ),
            final(self).current() == gauged(final(self).samples(), final(self).head(), elapsed),
    {
        self.window.add(elapsed / BUCKET_NS, bytes);
        let sum = self.window.sum();
        let span: u64 = if elapsed < BUCKET_NS {
            BUCKET_NS
        } else if elapsed > WINDOW_NS {
            WINDOW_NS
        } else {
            elapsed
        };
        let rate = (1000000000u128 * sum as u128) / span as u128;
        self.current = if rate > u64::MAX as u128 {
            u64::MAX
        } else {
            rate as u64
        };
    }

    /// Bytes per second across the window, as of the last record.
    pub fn rate(&self) -> (rate: u64)
        ensures
            rate == self.current(),
    {
        self.current
    }
}

/// A stall decays to zero: once every byte that was counted is older than the window, the rate is zero.
pub proof fn law_stall_decays_to_zero(samples: Seq<(int, u64)>, head: int, elapsed: u64)
    requires
        forall|k: int| 0 <= k < samples.len() ==> (#[trigger] samples[k]).0 + 30 <= head,
    ensures
        rate_of(samples, head, elapsed) == 0,
        gauged(samples, head, elapsed) == 0,
{
    window::law_old_samples_leave(samples, head - 29);
}

/// While nothing arrives, a reading made later is never faster.
pub proof fn law_stall_never_speeds_up(samples: Seq<(int, u64)>, head: int, elapsed: u64, later: u64)
    requires
        elapsed <= later,
        head >= (elapsed / 100) as int,
    ensures
        rate_of(samples, window::newest(head, (later / 100) as int), later) <= rate_of(
            samples,
            head,
            elapsed,
        ),
{
    let moved = window::newest(head, (later / 100) as int);
    window::law_window_shrinks(samples, head - 29, moved - 29);
    let a = window::cap(1000 * window::cap(window::since(samples, head - 29)));
    let b = window::cap(1000 * window::cap(window::since(samples, moved - 29)));
    let x = clamped(elapsed as int, 100, 3000) as nat;
    let y = clamped(later as int, 100, 3000) as nat;
    assert(b <= a);
    assert(b / y <= a / x) by (nonlinear_arith)
        requires
            b <= a,
            0 < x <= y,
    ;
}

/// Bytes that are all inside the window read their true rate over the time since the start: no byte is lost
/// and none is counted twice.
pub proof fn law_fresh_bytes_read_true(samples: Seq<(int, u64)>, head: int, elapsed: u64)
    requires
        head < 30,
        forall|k: int| 0 <= k < samples.len() ==> 0 <= (#[trigger] samples[k]).0,
        window::since(samples, 0) <= u64::MAX / 1000,
        100 <= elapsed <= 3000,
    ensures
        rate_of(samples, head, elapsed) == (1000 * window::since(samples, 0)) / (elapsed as nat),
{
    lemma_all_counted(samples, head - 29);
}

proof fn lemma_all_counted(samples: Seq<(int, u64)>, from: int)
    requires
        from <= 0,
        forall|k: int| 0 <= k < samples.len() ==> 0 <= (#[trigger] samples[k]).0,
    ensures
        window::since(samples, from) == window::since(samples, 0),
    decreases samples.len(),
{
    if samples.len() > 0 {
        assert(samples[samples.len() - 1].0 >= 0);
        lemma_all_counted(samples.drop_last(), from);
    }
}

/// A burst reads its true rate: bytes that came at once, read when they came, are divided by the time since the
/// start, no less than a tenth of a second and no more than three seconds.
pub proof fn law_burst_reads_true<C: Clock>(
    fresh: Speedometer<C>,
    counting: Speedometer<C>,
    reading: Speedometer<C>,
    now: u64,
    bytes: u64,
    rate: u64,
)
    requires
        fresh.samples() == Seq::<(int, u64)>::empty(),
        fresh.head() == 0,
        counting.counted(fresh, now, bytes),
        reading.read(counting, now, rate),
        bytes <= u64::MAX / 1000,
    ensures
        fresh.started() + 100 <= now <= fresh.started() + 3000 ==> rate == 1000 * bytes / (now
            - fresh.started()),
        now <= fresh.started() + 100 ==> rate == 10 * bytes,
        now >= fresh.started() + 3000 ==> rate == bytes / 3,
{
    let elapsed = since(fresh.started(), now);
    let bucket = elapsed as int / 100;
    let samples = counting.samples();
    assert(samples =~= seq![(window::landing(bucket, counting.head()), bytes)]);
    assert(samples.drop_last() =~= Seq::<(int, u64)>::empty());
    reveal_with_fuel(window::since, 2);
    assert(window::since(samples, reading.head() - 29) == bytes);
    assert(1000 * bytes / 100 == 10 * bytes);
    assert(1000 * bytes / 3000 == bytes / 3);
}

} // verus!
