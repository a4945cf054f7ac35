//! When the ticks of an output are due.

use vstd::prelude::*;

verus! {

/// Frames per second, as a fraction.
#[derive(Clone, Copy, Debug, PartialEq, Eq, Structural)]
pub struct Framerate {
    pub num: u32,
    pub den: u32,
}

/// Timestamps count nanoseconds.
pub const NANOS_PER_SECOND: u64 = 1_000_000_000;

/// The time of the `n`-th tick of a schedule that starts at `first`: `n`
/// periods later, the fraction of a nanosecond cut off. It depends on the
/// schedule alone, not on when earlier ticks were done.
pub open spec fn tick_time(first: u64, framerate: Framerate, n: nat) -> int {
    first + (n * NANOS_PER_SECOND * framerate.den) / (framerate.num as int)
}

/// A time as a timestamp can hold it.
pub open spec fn capped(t: int) -> u64 {
    if t > u64::MAX {
        u64::MAX
    } else {
        t as u64
    }
}

/// When the ticks of an output are due.
#[derive(Clone, Copy, Debug)]
pub struct TickSchedule {
    first: u64,
    framerate: Framerate,
    /// How many ticks are done.
    done: u64,
}

/// What the driver of an output does after a tick.
#[derive(Clone, Copy, Debug, PartialEq, Eq, Structural)]
pub struct Pacing {
    /// The time of the next tick.
    pub next_pts: u64,
    /// How long to wait before the next tick is started.
    pub wait: u64,
    /// Whether the tick was done only after the next one was due.
    pub late: bool,
}

impl TickSchedule {
    /// The time of the first tick.
    pub closed spec fn first(&self) -> u64 {
        self.first
    }

    /// How many ticks are due per second.
    pub closed spec fn framerate(&self) -> Framerate {
        self.framerate
    }

    /// How many ticks are done.
    pub closed spec fn done(&self) -> u64 {
        self.done
    }

    /// The framerate is a positive number.
    pub closed spec fn wf(&self) -> bool {
        self.framerate.num > 0 && self.framerate.den > 0
    }

    /// The time of the tick that is due next.
    pub open spec fn spec_next_pts(&self) -> u64 {
        capped(tick_time(self.first(), self.framerate(), self.done() as nat))
    }

    /// A schedule whose first tick is due at `first`; `None` if the
    /// framerate is no positive number.
    pub fn new(first: u64, framerate: Framerate) -> (res: Option<Self>)
        ensures
            res is Some == (framerate.num > 0 && framerate.den > 0),
            res matches Some(schedule) ==> schedule.wf() && schedule.first() == first
                && schedule.framerate() == framerate && schedule.done() == 0,
    {
        if framerate.num == 0 || framerate.den == 0 {
            None
        } else {
            Some(Self { first, framerate, done: 0 })
        }
    }

    fn time_of(&self, n: u64) -> (t: u64)
        requires
            self.wf(),
        ensures
            t == capped(tick_time(self.first(), self.framerate(), n as nat)),
    {
        assert(n * NANOS_PER_SECOND * self.framerate.den <= 0xFFFF_FFFF_FFFF_FFFF * 1_000_000_000
            * 0xFFFF_FFFF) by (nonlinear_arith)
            requires
                0 <= n <= 0xFFFF_FFFF_FFFF_FFFF,
                NANOS_PER_SECOND == 1_000_000_000,
                0 <= self.framerate.den <= 0xFFFF_FFFF,
        ;
        assert(0 <= n * NANOS_PER_SECOND * self.framerate.den) by (nonlinear_arith)
            requires
                0 <= n,
                NANOS_PER_SECOND == 1_000_000_000,
                0 <= self.framerate.den,
        ;
        assert(n * NANOS_PER_SECOND <= 0xFFFF_FFFF_FFFF_FFFF * 1_000_000_000) by (nonlinear_arith)
            requires
                0 <= n <= 0xFFFF_FFFF_FFFF_FFFF,
                NANOS_PER_SECOND == 1_000_000_000,
        ;
        let elapsed: u128 = (n as u128) * (NANOS_PER_SECOND as u128) * (self.framerate.den as u128)
            / (self.framerate.num as u128);
        assert(elapsed <= n * NANOS_PER_SECOND * self.framerate.den) by (nonlinear_arith)
            requires
                elapsed == (n * NANOS_PER_SECOND * self.framerate.den) / (self.framerate.num as int),
                self.framerate.num > 0,
                0 <= n * NANOS_PER_SECOND * self.framerate.den,
        ;
        let t: u128 = self.first as u128 + elapsed;
        if t > u64::MAX as u128 {
            u64::MAX
        } else {
            t as u64
        }
    }

    /// Whether the count of ticks is at its end.
    pub fn is_last(&self) -> (res: bool)
        ensures
            res == (self.done() == u64::MAX),
    {
        self.done == u64::MAX
    }

    /// The time of the tick that is due next.
    pub fn next_pts(&self) -> (t: u64)
        requires
            self.wf(),
        ensures
            t == self.spec_next_pts(),
    {
        self.time_of(self.done)
    }

    /// Records that the tick that was due is done, at time `now`, and says
    /// how to go on. The next tick is due one period after the one that
    /// was done, however long that one took; a tick that was done late
    /// is followed at once.
    pub fn complete_tick(&mut self, now: u64) -> (pacing: Pacing)
        requires
            old(self).wf(),
            old(self).done() < u64::MAX,
        ensures
            final(self).wf(),
            final(self).first() == old(self).first(),
            final(self).framerate() == old(self).framerate(),
            final(self).done() == old(self).done() + 1,
            pacing.next_pts == final(self).spec_next_pts(),
            pacing.late == (now > pacing.next_pts),
            pacing.wait == if now > pacing.next_pts {
                0
            } else {
                pacing.next_pts - now
            },
    {
        self.done = self.done + 1;
        let next_pts = self.time_of(self.done);
        if now > next_pts {
            Pacing { next_pts, wait: 0, late: true }
        } else {
            Pacing { next_pts, wait: next_pts - now, late: false }
        }
    }
}

/// Ticks are due in order: a later tick is never due before an earlier
/// one.
pub proof fn lemma_tick_times_ascend(first: u64, framerate: Framerate, m: nat, n: nat)
    requires
        framerate.num > 0,
        m <= n,
    ensures
        tick_time(first, framerate, m) <= tick_time(first, framerate, n),
        capped(tick_time(first, framerate, m)) <= capped(tick_time(first, framerate, n)),
{
    let a = m * NANOS_PER_SECOND * framerate.den;
    let b = n * NANOS_PER_SECOND * framerate.den;
    assert(a <= b) by (nonlinear_arith)
        requires
            a == m * NANOS_PER_SECOND * framerate.den,
            b == n * NANOS_PER_SECOND * framerate.den,
            m <= n,
            NANOS_PER_SECOND == 1_000_000_000,
            framerate.den >= 0,
    ;
    assert(a / (framerate.num as int) <= b / (framerate.num as int)) by (nonlinear_arith)
        requires
            a <= b,
            framerate.num > 0,
    ;
    assert(0 <= a) by (nonlinear_arith)
        requires
            a == m * NANOS_PER_SECOND * framerate.den,
            NANOS_PER_SECOND == 1_000_000_000,
            framerate.den >= 0,
    ;
    assert(0 <= a / (framerate.num as int)) by (nonlinear_arith)
        requires
            0 <= a,
            framerate.num > 0,
    ;
}

} // verus!
