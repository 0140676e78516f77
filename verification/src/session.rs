//! The clock of a game as the player sees it: the time carried over from
//! earlier sessions, when play began in this one and when the game ended.
//! The window around the board reports events to it and reads it back.

use vstd::prelude::*;
use crate::duration::TimeSpan;
use crate::egui_fps::{instant_now, elapsed_since};

verus! {

/// The time from `start` to `stop` (`Instant - Instant`); it depends on the
/// clock, so only what holds of every `Duration` is stated: the nanoseconds
/// stay below a second.
#[verifier::external_body]
fn span_between(start: &std::time::Instant, stop: &std::time::Instant) -> (r: TimeSpan)
    ensures
        r.nanos < 1_000_000_000,
{
    let d = *stop - *start;
    TimeSpan { secs: d.as_secs(), nanos: d.subsec_nanos() }
}

/// A span whose nanoseconds stay below a second, as every `Duration`'s do.
pub open spec fn valid_span(t: TimeSpan) -> bool {
    t.nanos < 1_000_000_000
}

/// A span's length in nanoseconds.
pub open spec fn span_nanos(t: TimeSpan) -> int {
    t.secs * 1_000_000_000 + t.nanos
}

/// The sum of two spans (`Duration + Duration`), or `None` when its seconds
/// do not fit in a `u64`.
pub open spec fn span_sum(a: TimeSpan, b: TimeSpan) -> Option<TimeSpan> {
    let carry: int = if a.nanos + b.nanos >= 1_000_000_000 { 1 } else { 0 };
    let secs = a.secs + b.secs + carry;
    if secs > u64::MAX {
        None
    } else {
        Some(TimeSpan { secs: secs as u64, nanos: (a.nanos + b.nanos - carry * 1_000_000_000) as u32 })
    }
}

/// Adds two spans; `None` when the sum's seconds do not fit in a `u64`, where
/// `Duration`'s `+` panics.
pub fn add_spans(a: TimeSpan, b: TimeSpan) -> (r: Option<TimeSpan>)
    requires
        valid_span(a),
        valid_span(b),
    ensures
        r == span_sum(a, b),
        r matches Some(t) ==> valid_span(t) && span_nanos(t) == span_nanos(a) + span_nanos(b),
{
    let nanos: u32 = a.nanos + b.nanos;
    if nanos >= 1_000_000_000 {
        match a.secs.checked_add(b.secs) {
            Some(s) => match s.checked_add(1) {
                Some(s1) => Some(TimeSpan { secs: s1, nanos: nanos - 1_000_000_000 }),
                None => None,
            },
            None => None,
        }
    } else {
        match a.secs.checked_add(b.secs) {
            Some(s) => Some(TimeSpan { secs: s, nanos }),
            None => None,
        }
    }
}

/// What the status line of the window says.
#[derive(Copy, Clone, Debug, PartialEq, Eq, Structural)]
pub enum GameStatus {
    Lost,
    Won,
    InProgress,
}

/// The status of a game: a lost game reads as lost even if it also counts as
/// won, and a game neither lost nor won is in progress.
pub fn game_status(lost: bool, won: bool) -> (r: GameStatus)
    ensures
        r == (if lost {
            GameStatus::Lost
        } else if won {
            GameStatus::Won
        } else {
            GameStatus::InProgress
        }),
{
    if lost {
        GameStatus::Lost
    } else if won {
        GameStatus::Won
    } else {
        GameStatus::InProgress
    }
}

/// The clock of a game. Play starts at the first move of this session (or
/// at once, when time was carried over from an earlier one) and stops when a
/// move ends the game; a game never stops without having started.
pub struct GameClock {
    extra_time: TimeSpan,
    game_started: Option<std::time::Instant>,
    game_stopped: Option<std::time::Instant>,
}

impl GameClock {
    #[verifier::type_invariant]
    spec fn well_formed(self) -> bool {
        &&& valid_span(self.extra_time)
        &&& self.game_stopped is Some ==> self.game_started is Some
    }

    /// The time carried over from earlier sessions.
    pub closed spec fn spec_extra(self) -> TimeSpan {
        self.extra_time
    }

    /// When play began in this session, if it has.
    pub closed spec fn spec_started(self) -> Option<std::time::Instant> {
        self.game_started
    }

    /// When the game ended in this session, if it has.
    pub closed spec fn spec_stopped(self) -> Option<std::time::Instant> {
        self.game_stopped
    }

    /// Whether play has begun in this session.
    pub fn has_started(&self) -> (r: bool)
        ensures
            r == self.spec_started() is Some,
    {
        self.game_started.is_some()
    }

    /// A clock that has not started, with nothing carried over.
    pub fn new() -> (r: Self)
        ensures
            r.spec_extra() == TimeSpan::spec_zero(),
            r.spec_started() is None,
            r.spec_stopped() is None,
    {
        GameClock { extra_time: TimeSpan::zero(), game_started: None, game_stopped: None }
    }

    /// The clock of a game brought back from storage: a span carried over
    /// that is not zero is kept and the clock runs from now, unless the
    /// game is already over, when it does not run.
    pub fn restore(saved: Option<TimeSpan>, game_is_over: bool) -> (r: Self)
        requires
            saved matches Some(t) ==> valid_span(t),
        ensures
            r.spec_extra() == (match saved {
                Some(t) => if t == TimeSpan::spec_zero() { TimeSpan::spec_zero() } else { t },
                None => TimeSpan::spec_zero(),
            }),
            r.spec_started() is Some <==> (!game_is_over && (saved matches Some(t) && t != TimeSpan::spec_zero())),
            r.spec_stopped() is None,
    {
        let mut extra_time = TimeSpan::zero();
        let mut game_started: Option<std::time::Instant> = None;
        if let Some(t) = saved {
            if !(t.secs == 0 && t.nanos == 0) {
                extra_time = t;
                game_started = Some(instant_now());
            }
        }
        if game_is_over {
            game_started = None;
        }
        GameClock { extra_time, game_started, game_stopped: None }
    }

    /// Records a move on the board: the first move starts the clock, and a
    /// move that ends the game stops it, once.
    pub fn note_move(&mut self, game_is_now_over: bool)
        ensures
            final(self).spec_extra() == old(self).spec_extra(),
            final(self).spec_started() is Some,
            old(self).spec_started() is Some ==> final(self).spec_started() == old(self).spec_started(),
            old(self).spec_stopped() is Some ==> final(self).spec_stopped() == old(self).spec_stopped(),
            old(self).spec_stopped() is None ==> (final(self).spec_stopped() is Some <==> game_is_now_over),
    {
        proof {
            use_type_invariant(&*self);
        }
        if self.game_started.is_none() {
            self.game_started = Some(instant_now());
        }
        if game_is_now_over && self.game_stopped.is_none() {
            self.game_stopped = Some(instant_now());
        }
    }

    /// Starts afresh: nothing carried over, not started, not stopped.
    pub fn reset(&mut self)
        ensures
            final(self).spec_extra() == TimeSpan::spec_zero(),
            final(self).spec_started() is None,
            final(self).spec_stopped() is None,
    {
        proof {
            use_type_invariant(&*self);
        }
        self.game_stopped = None;
        self.game_started = None;
        self.extra_time = TimeSpan::zero();
    }

    /// The time a finished game took: from start to stop plus the time
    /// carried over, or the carried-over time alone when the clock has not
    /// both started and stopped; `None` when the sum does not fit, where
    /// `Duration`'s `+` panics. The measured part comes from the clock, so
    /// of it only what holds of every outcome is stated.
    pub fn finished_time(&self) -> (r: Option<TimeSpan>)
        ensures
            !(self.spec_started() is Some && self.spec_stopped() is Some) ==> r == Some(self.spec_extra()),
            (self.spec_started() is Some && self.spec_stopped() is Some) ==> exists|m: TimeSpan|
                #![trigger span_sum(m, self.spec_extra())]
                valid_span(m) && r == span_sum(m, self.spec_extra()),
            r matches Some(t) ==> valid_span(t) && span_nanos(t) >= span_nanos(self.spec_extra()),
    {
        proof {
            use_type_invariant(self);
        }
        match (&self.game_started, &self.game_stopped) {
            (Some(start), Some(stop)) => {
                let measured = span_between(start, stop);
                let r = add_spans(measured, self.extra_time);
                assert(valid_span(measured) && r == span_sum(measured, self.spec_extra()));
                r
            },
            _ => Some(self.extra_time),
        }
    }

    /// The whole seconds a game in progress has taken: the time since the
    /// clock started (none if it has not) plus the time carried over; `None`
    /// when the sum does not fit. The measured part comes from the clock.
    pub fn running_secs(&self) -> (r: Option<u64>)
        ensures
            self.spec_started() is None ==> r == Some(self.spec_extra().secs),
            self.spec_started() is Some ==> exists|m: TimeSpan| #![trigger span_sum(m, self.spec_extra())]
                valid_span(m) && r == (match span_sum(m, self.spec_extra()) {
                    Some(t) => Some(t.secs),
                    None => None,
                }),
            r matches Some(s) ==> s >= self.spec_extra().secs,
    {
        proof {
            use_type_invariant(self);
        }
        let measured = match &self.game_started {
            Some(start) => elapsed_since(start),
            None => TimeSpan::zero(),
        };
        let total = add_spans(measured, self.extra_time);
        assert(valid_span(measured) && total == span_sum(measured, self.spec_extra()));
        match total {
            Some(t) => Some(t.secs),
            None => None,
        }
    }

    /// The time to store when the window closes: for a game in progress the
    /// time since the clock started plus the time carried over, and zero
    /// when play has not started or the game is over (`None` when the sum
    /// does not fit). The measured part comes from the clock.
    pub fn time_to_save(&self) -> (r: Option<TimeSpan>)
        ensures
            (self.spec_started() is None || self.spec_stopped() is Some) ==> r == Some(TimeSpan::spec_zero()),
            r matches Some(t) ==> valid_span(t),
            (self.spec_started() is Some && self.spec_stopped() is None) ==> (r matches Some(t) ==> span_nanos(t)
                >= span_nanos(self.spec_extra())),
            (self.spec_started() is Some && self.spec_stopped() is None) ==> exists|m: TimeSpan|
                #![trigger span_sum(m, self.spec_extra())]
                valid_span(m) && r == span_sum(m, self.spec_extra()),
    {
        proof {
            use_type_invariant(self);
        }
        match (&self.game_started, &self.game_stopped) {
            (Some(start), None) => {
                let measured = elapsed_since(start);
                let r = add_spans(measured, self.extra_time);
                assert(valid_span(measured) && r == span_sum(measured, self.spec_extra()));
                r
            },
            _ => Some(TimeSpan::zero()),
        }
    }
}

} // verus!
