//! The players' clocks.
use vstd::prelude::*;

use std::time::Instant;

use crate::engine::board::{opposite_color, Color};

verus! {

/// std's `Instant`, declared so that a clock can hold one; what it holds stays opaque here.
#[verifier::external_type_specification]
#[verifier::external_body]
pub struct ExInstant(Instant);

/// std's `Instant::now`: the present moment by the monotonic clock. Nothing is stated of
/// it, as it depends on the time of the call.
#[verifier::external_body]
fn now() -> Instant {
    Instant::now()
}

/// std's `Instant::elapsed`, read with `Duration::as_nanos`: the nanoseconds elapsed since
/// `since` by the monotonic clock. Nothing is stated of it, as it depends on the time of the
/// call.
#[verifier::external_body]
fn nanos_since(since: &Instant) -> u128 {
    since.elapsed().as_nanos()
}

/// What is left of `time` once `elapsed` is spent, never less than zero.
pub open spec fn time_left(time: u128, elapsed: u128) -> u128 {
    if time > elapsed {
        (time - elapsed) as u128
    } else {
        0
    }
}

/// What the event loop does next: how long to wait for input, and whether the timer ticks.
pub struct LoopStep {
    pub poll_timeout_nanos: u128,
    pub tick_due: bool,
}

/// One turn of the event loop, `since_tick_nanos` after the last tick: input is awaited at
/// most until the next tick is due, and the tick is due once a whole tick period
/// `tick_rate_nanos` has passed.
pub fn loop_step(tick_rate_nanos: u128, since_tick_nanos: u128) -> (r: LoopStep)
    ensures
        r.poll_timeout_nanos == time_left(tick_rate_nanos, since_tick_nanos),
        r.tick_due == (since_tick_nanos >= tick_rate_nanos),
{
    let poll_timeout_nanos = if tick_rate_nanos > since_tick_nanos {
        tick_rate_nanos - since_tick_nanos
    } else {
        0
    };
    LoopStep { poll_timeout_nanos, tick_due: since_tick_nanos >= tick_rate_nanos }
}

/// Whether `after` is `before` once `elapsed` nanoseconds are spent from the running clock.
pub open spec fn spent_from(before: ClockModel, after: ClockModel, elapsed: u128) -> bool {
    &&& after.active == before.active
    &&& after.white_time == if before.active == Some(Color::White) {
        time_left(before.white_time, elapsed)
    } else {
        before.white_time
    }
    &&& after.black_time == if before.active == Some(Color::Black) {
        time_left(before.black_time, elapsed)
    } else {
        before.black_time
    }
}

/// Two clocks, one per player, counted in nanoseconds; the clock of the side to move runs.
pub struct ChessClock {
    pub white_time: u128,
    pub black_time: u128,
    active: Option<Color>,
    last_tick: Instant,
}

/// The value of the clocks: each side's time in nanoseconds and the side whose clock runs.
pub ghost struct ClockModel {
    pub white_time: u128,
    pub black_time: u128,
    pub active: Option<Color>,
}

impl View for ChessClock {
    type V = ClockModel;

    closed spec fn view(&self) -> ClockModel {
        ClockModel { white_time: self.white_time, black_time: self.black_time, active: self.active }
    }
}

impl ChessClock {

    /// Both clocks at `initial` nanoseconds, White's running.
    pub fn new(initial: u128) -> (c: ChessClock)
        ensures
            c@.white_time == initial,
            c@.black_time == initial,
            c@.active == Some(Color::White),
    {
        ChessClock { white_time: initial, black_time: initial, active: Some(Color::White), last_tick: now() }
    }

    /// Hands the running clock to the other side; the times do not change.
    pub fn switch_turn(&mut self)
        ensures
            final(self)@.white_time == old(self)@.white_time,
            final(self)@.black_time == old(self)@.black_time,
            final(self)@.active == match old(self)@.active {
                Some(c) => Some(opposite_color(c)),
                None => None,
            },
    {
        self.active = match self.active {
            Some(c) => Some(c.opposite()),
            None => None,
        };
        self.last_tick = now();
    }

    /// Spends `elapsed` nanoseconds from the running clock, stopping at zero.
    pub fn spend(&mut self, elapsed: u128)
        ensures
            final(self)@.active == old(self)@.active,
            final(self)@.white_time == if old(self)@.active == Some(Color::White) {
                time_left(old(self)@.white_time, elapsed)
            } else {
                old(self)@.white_time
            },
            final(self)@.black_time == if old(self)@.active == Some(Color::Black) {
                time_left(old(self)@.black_time, elapsed)
            } else {
                old(self)@.black_time
            },
    {
        if let Some(color) = self.active {
            match color {
                Color::White => {
                    self.white_time = if self.white_time > elapsed {
                        self.white_time - elapsed
                    } else {
                        0
                    };
                },
                Color::Black => {
                    self.black_time = if self.black_time > elapsed {
                        self.black_time - elapsed
                    } else {
                        0
                    };
                },
            }
        }
    }

    /// Spends from the running clock the time since the last tick or switch. How much that
    /// is depends on the time of the call: the running clock loses some time, stopping at
    /// zero, and the other stays as it was.
    pub fn tick(&mut self)
        ensures
            final(self)@.active == old(self)@.active,
            exists|elapsed: u128| #[trigger] spent_from(old(self)@, final(self)@, elapsed),
    {
        let ghost mut spent: u128 = 0;
        if self.active.is_some() {
            let elapsed = nanos_since(&self.last_tick);
            self.last_tick = now();
            self.spend(elapsed);
            proof {
                spent = elapsed;
            }
        }
        assert(spent_from(old(self)@, self@, spent));
    }

    /// White's time left, in nanoseconds.
    pub fn white_nanos(&self) -> (t: u128)
        ensures
            t == self@.white_time,
    {
        self.white_time
    }

    /// Black's time left, in nanoseconds.
    pub fn black_nanos(&self) -> (t: u128)
        ensures
            t == self@.black_time,
    {
        self.black_time
    }

    /// Whether either clock has run out.
    pub fn is_zero(&self) -> (r: bool)
        ensures
            r == (self@.white_time == 0 || self@.black_time == 0),
    {
        self.white_time == 0 || self.black_time == 0
    }
}

/// Spending time never adds any: neither clock grows, and the clock that is not running
/// does not change.
pub proof fn lemma_spending_never_adds_time(before: ClockModel, after: ClockModel, elapsed: u128)
    requires
        spent_from(before, after, elapsed),
    ensures
        after.white_time <= before.white_time,
        after.black_time <= before.black_time,
        before.active != Some(Color::White) ==> after.white_time == before.white_time,
        before.active != Some(Color::Black) ==> after.black_time == before.black_time,
{
}

/// Spending time adds up: spending `e1` and then `e2` leaves the clocks as spending
/// `e1 + e2` at once, the running clock losing exactly that much until it reaches zero.
pub proof fn lemma_spending_adds_up(a: ClockModel, b: ClockModel, c: ClockModel, e1: u128, e2: u128)
    requires
        spent_from(a, b, e1),
        spent_from(b, c, e2),
        e1 + e2 <= u128::MAX,
    ensures
        spent_from(a, c, (e1 + e2) as u128),
        a.active == Some(Color::White) ==> c.white_time == (if a.white_time >= e1 + e2 {
            a.white_time - e1 - e2
        } else {
            0
        }),
        a.active == Some(Color::Black) ==> c.black_time == (if a.black_time >= e1 + e2 {
            a.black_time - e1 - e2
        } else {
            0
        }),
{
}

} // verus!
