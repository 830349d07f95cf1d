//! The progress interface the optimizer reports through, and the small
//! integer helpers behind the surrounding tools' status displays.
//!
//! Wall-clock readings enter as plain millisecond values, so all timing
//! logic is ordinary verified integer arithmetic; the caller supplies the
//! readings and decides presentation.

use vstd::prelude::*;

verus! {

/// Interface the optimizer reports progress through at step boundaries.
/// Implementations decide presentation and throttling; the optimizer's
/// results never depend on what a sink does.
pub trait ProgressSink {
    /// `attempt` and `step` are the loop indices, `moved` the points that
    /// changed cluster this step, `movement` the summed centroid movement,
    /// and `progress`/`total` a normalized pair for ETA display.
    fn report(
        &mut self,
        attempt: u32,
        step: u32,
        moved: u64,
        movement: u64,
        progress: u64,
        total: u64,
    );
}

/// A sink that ignores every report.
pub struct SilentSink;

impl ProgressSink for SilentSink {
    fn report(
        &mut self,
        _attempt: u32,
        _step: u32,
        _moved: u64,
        _movement: u64,
        _progress: u64,
        _total: u64,
    ) {
    }
}

/// Width cap of a rendered progress bar, border and percentage included.
pub const BAR_MAX_WIDTH: u16 = 48;

/// State of a textual progress bar; rendering lives with the caller.
pub struct ProgressBar {
    pub total: u32,
    pub current: u32,
    pub width: u16,
}

impl ProgressBar {
    pub fn new(size: u32, width: u16) -> (p: ProgressBar)
        requires
            width >= 8,
        ensures
            p.total == size,
            p.current == 0,
            p.width == (if width < BAR_MAX_WIDTH {
                width
            } else {
                BAR_MAX_WIDTH
            }) - 8,
    {
        let w = if width < BAR_MAX_WIDTH {
            width
        } else {
            BAR_MAX_WIDTH
        };
        ProgressBar { total: size, current: 0, width: w - 8 }
    }

    /// Advance by `size` ticks, stopping just short of the end.
    pub fn step(&mut self, size: u32)
        requires
            old(self).total >= 1,
            old(self).current + size <= u32::MAX,
        ensures
            final(self).current == (if old(self).current + size < old(self).total - 1 {
                old(self).current + size
            } else {
                old(self).total - 1
            }),
            final(self).total == old(self).total,
            final(self).width == old(self).width,
    {
        let next = self.current + size;
        self.current = if next < self.total - 1 {
            next
        } else {
            self.total - 1
        };
    }

    /// Jump to the last tick.
    pub fn finish(&mut self)
        requires
            old(self).total >= 1,
        ensures
            final(self).current == old(self).total - 1,
            final(self).total == old(self).total,
            final(self).width == old(self).width,
    {
        self.current = self.total - 1;
    }
}

/// The character of one decimal digit.
pub open spec fn digit_char(d: int) -> char {
    if d == 0 {
        '0'
    } else if d == 1 {
        '1'
    } else if d == 2 {
        '2'
    } else if d == 3 {
        '3'
    } else if d == 4 {
        '4'
    } else if d == 5 {
        '5'
    } else if d == 6 {
        '6'
    } else if d == 7 {
        '7'
    } else if d == 8 {
        '8'
    } else {
        '9'
    }
}

/// The decimal digits of `n`, most significant first.
pub open spec fn dec_chars(n: int) -> Seq<char>
    decreases n,
{
    if n < 10 {
        seq![digit_char(n)]
    } else {
        dec_chars(n / 10).push(digit_char(n % 10))
    }
}

/// A value below 100 as exactly two digits, zero-padded.
pub open spec fn two_digit_chars(n: int) -> Seq<char> {
    seq![digit_char(n / 10), digit_char(n % 10)]
}

/// The rendering of a duration: seconds only below a minute, zero-padded
/// minutes below an hour, and a space-padded hour count above that.
pub open spec fn duration_chars(ms: u64) -> Seq<char> {
    let secs = ms / 1000;
    let hours = secs / 60 / 60;
    let minutes = (secs / 60) % 60;
    let seconds = secs % 60;
    if hours > 0 {
        (if hours < 10 {
            seq![' ']
        } else {
            Seq::empty()
        }) + dec_chars(hours as int) + seq!['h', ' '] + two_digit_chars(minutes as int) + seq![
            'm',
            ' ',
        ] + two_digit_chars(seconds as int) + seq!['s']
    } else if minutes > 0 {
        two_digit_chars(minutes as int) + seq!['m', ' '] + two_digit_chars(seconds as int)
            + seq!['s']
    } else {
        two_digit_chars(seconds as int) + seq!['s']
    }
}

/// Append the decimal digits of `n`.
fn push_dec(n: u64, out: &mut Vec<char>)
    ensures
        final(out)@ == old(out)@ + dec_chars(n as int),
    decreases n,
{
    if n < 10 {
        out.push(digit(n));
        proof {
            assert(out@ =~= old(out)@ + dec_chars(n as int));
        }
    } else {
        push_dec(n / 10, out);
        out.push(digit(n % 10));
        proof {
            assert(out@ =~= old(out)@ + dec_chars(n as int));
        }
    }
}

/// The character of `d`, which must be a single digit.
fn digit(d: u64) -> (c: char)
    requires
        d < 10,
    ensures
        c == digit_char(d as int),
{
    if d == 0 {
        '0'
    } else if d == 1 {
        '1'
    } else if d == 2 {
        '2'
    } else if d == 3 {
        '3'
    } else if d == 4 {
        '4'
    } else if d == 5 {
        '5'
    } else if d == 6 {
        '6'
    } else if d == 7 {
        '7'
    } else if d == 8 {
        '8'
    } else {
        '9'
    }
}

/// Append a value below 100 as two zero-padded digits.
fn push_two_digits(n: u64, out: &mut Vec<char>)
    requires
        n < 100,
    ensures
        final(out)@ == old(out)@ + two_digit_chars(n as int),
{
    out.push(digit(n / 10));
    out.push(digit(n % 10));
    proof {
        assert(out@ =~= old(out)@ + two_digit_chars(n as int));
    }
}

/// Relies on `String`'s `FromIterator<char>`: collecting characters
/// builds the string holding exactly those characters in order.
#[verifier::external_body]
fn chars_to_string(cs: &Vec<char>) -> (s: String)
    ensures
        s@ == cs@,
{
    cs.iter().collect()
}

/// Render a duration in the `2h 05m 09s` style.
pub fn duration_format(ms: u64) -> (s: String)
    ensures
        s@ == duration_chars(ms),
{
    let secs = ms / 1000;
    let hours = secs / 60 / 60;
    let minutes = (secs / 60) % 60;
    let seconds = secs % 60;
    let mut out: Vec<char> = Vec::new();
    if hours > 0 {
        if hours < 10 {
            out.push(' ');
        }
        push_dec(hours, &mut out);
        out.push('h');
        out.push(' ');
        push_two_digits(minutes, &mut out);
        out.push('m');
        out.push(' ');
        push_two_digits(seconds, &mut out);
        out.push('s');
    } else if minutes > 0 {
        push_two_digits(minutes, &mut out);
        out.push('m');
        out.push(' ');
        push_two_digits(seconds, &mut out);
        out.push('s');
    } else {
        push_two_digits(seconds, &mut out);
        out.push('s');
    }
    proof {
        assert(out@ =~= duration_chars(ms));
    }
    chars_to_string(&out)
}

/// Minimum interval between two display refreshes, in milliseconds.
pub const TIMER_MIN_INTERVAL_MS: u64 = 500;

/// Step counter with millisecond timestamps for ETA estimation.  Callers
/// pass in the current wall-clock reading.
pub struct Timer {
    pub step: u32,
    pub total: u32,
    pub start: u64,
    pub last_update: u64,
}

/// Elapsed time between a start and a later reading; zero if the clock
/// went backwards.
pub open spec fn elapsed_ms(start: u64, now: u64) -> int {
    if now >= start {
        now - start
    } else {
        0
    }
}

impl Timer {
    pub fn new(total: u32, now: u64) -> (t: Timer)
        ensures
            t == (Timer { step: 0, total, start: now, last_update: now }),
    {
        Timer { step: 0, total, start: now, last_update: now }
    }

    pub fn start(&mut self, now: u64)
        ensures
            *final(self) == (Timer { start: now, last_update: now, ..*old(self) }),
    {
        self.start = now;
        self.last_update = now;
    }

    /// Whether enough wall time has passed since the last refresh.
    pub fn needs_update(&self, now: u64) -> (b: bool)
        ensures
            b == (now > self.last_update + TIMER_MIN_INTERVAL_MS),
    {
        if now > self.last_update {
            now - self.last_update > TIMER_MIN_INTERVAL_MS
        } else {
            false
        }
    }

    pub fn update(&mut self, step: u32, now: u64)
        ensures
            *final(self) == (Timer { step, last_update: now, ..*old(self) }),
    {
        self.step = step;
        self.last_update = now;
    }

    /// Milliseconds since the timer was started.
    pub fn get_elapsed(&self, now: u64) -> (ms: u64)
        ensures
            ms == elapsed_ms(self.start, now),
    {
        if now >= self.start {
            now - self.start
        } else {
            0
        }
    }

    /// Estimated milliseconds left: elapsed time scaled by the ratio of
    /// remaining steps to finished steps; zero before the first step.
    pub fn get_remaining(&self, now: u64) -> (ms: u64)
        ensures
            ms == (if self.step == 0 || self.step > self.total {
                0int
            } else {
                let v = elapsed_ms(self.start, now) * (self.total - self.step) / (self.step as int);
                if v > u64::MAX {
                    u64::MAX as int
                } else {
                    v
                }
            }),
    {
        if self.step == 0 || self.step > self.total {
            return 0;
        }
        let e = self.get_elapsed(now);
        proof {
            assert((e as int) * ((self.total - self.step) as int) <= 0xffffffffffffffff
                * 0xffffffff) by (nonlinear_arith)
                requires
                    0 <= e <= 0xffffffffffffffff,
                    0 <= self.total - self.step <= 0xffffffff,
            ;
            vstd::arithmetic::div_mod::lemma_div_is_ordered(
                (e as int) * ((self.total - self.step) as int),
                0xffffffffffffffffint * 0xffffffffint,
                self.step as int,
            );
        }
        let wide: u128 = (e as u128) * ((self.total - self.step) as u128) / (self.step as u128);
        if wide > 0xffffffffffffffffu128 {
            u64::MAX
        } else {
            wide as u64
        }
    }
}

} // verus!
