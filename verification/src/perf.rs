//! Scoped timing of hot paths.
//!
//! A [`Scope`] remembers when it was started; [`Scope::finish`] gives the log
//! line when the scope took at least its threshold. An [`Accumulator`] gathers
//! many small measurements into one line.

use vstd::prelude::*;
use crate::text::{chars_of, push_decimal, push_str, string_of};

verus! {

/// Scopes below this many microseconds are not logged.
pub const DEFAULT_THRESHOLD_US: u128 = 500;

/// A point in time on the monotonic clock of the machine.
#[verifier::external_type_specification]
#[verifier::external_body]
pub struct ExInstant(std::time::Instant);

/// `std::time::Instant::now`: nothing is claimed of the time it gives.
#[verifier::external_body]
fn now() -> std::time::Instant {
    std::time::Instant::now()
}

/// What the clock says at one time or another of how many microseconds have passed
/// since `start`.
pub uninterp spec fn readings_of(start: std::time::Instant) -> Set<u128>;

/// `std::time::Instant::elapsed` in whole microseconds: one reading of the clock
/// against `start`. Nothing is claimed of how much time has passed.
#[verifier::external_body]
fn elapsed_us(start: &std::time::Instant) -> (us: u128)
    ensures
        readings_of(*start).contains(us),
{
    start.elapsed().as_micros()
}

/// A named stretch of work that is being timed.
pub struct Scope {
    name: &'static str,
    context: Option<String>,
    threshold_us: u128,
    start: std::time::Instant,
}

/// The log line of a scope that took `us` microseconds; None below the
/// threshold.
pub open spec fn scope_line(
    name: Seq<char>,
    context: Option<Seq<char>>,
    threshold_us: u128,
    us: u128,
) -> Option<Seq<char>> {
    if us >= threshold_us {
        Some(
            match context {
                Some(ctx) => "perf="@ + name + " ctx="@ + ctx + " us="@ + crate::text::decimal(
                    us as nat,
                ),
                None => "perf="@ + name + " us="@ + crate::text::decimal(us as nat),
            },
        )
    } else {
        None
    }
}

impl Scope {
    pub closed spec fn named(&self) -> Seq<char> {
        self.name@
    }

    pub closed spec fn context(&self) -> Option<Seq<char>> {
        match self.context {
            Some(c) => Some(c@),
            None => None,
        }
    }

    pub closed spec fn threshold(&self) -> u128 {
        self.threshold_us
    }

    /// When the scope was started.
    pub closed spec fn started(&self) -> std::time::Instant {
        self.start
    }

    /// A scope with the default threshold.
    pub fn new(name: &'static str) -> (r: Self)
        ensures
            r.named() == name@,
            r.context() is None,
            r.threshold() == DEFAULT_THRESHOLD_US,
    {
        Scope { name, context: None, threshold_us: DEFAULT_THRESHOLD_US, start: now() }
    }

    /// A scope with a context string and the default threshold.
    pub fn with_ctx(name: &'static str, ctx: String) -> (r: Self)
        ensures
            r.named() == name@,
            r.context() == Some(ctx@),
            r.threshold() == DEFAULT_THRESHOLD_US,
    {
        Scope { name, context: Some(ctx), threshold_us: DEFAULT_THRESHOLD_US, start: now() }
    }

    /// A scope with a threshold of its own; 0 logs unconditionally.
    pub fn with_threshold(name: &'static str, threshold_us: u128) -> (r: Self)
        ensures
            r.named() == name@,
            r.context() is None,
            r.threshold() == threshold_us,
    {
        Scope { name, context: None, threshold_us, start: now() }
    }

    /// The log line for a scope that took `us` microseconds.
    pub fn report(&self, us: u128) -> (r: Option<String>)
        ensures
            match r {
                Some(l) => scope_line(self.named(), self.context(), self.threshold(), us) == Some(
                    l@,
                ),
                None => scope_line(self.named(), self.context(), self.threshold(), us) is None,
            },
    {
        if us < self.threshold_us {
            return None;
        }
        let mut out = chars_of("perf=");
        push_str(&mut out, self.name);
        if let Some(ctx) = &self.context {
            push_str(&mut out, " ctx=");
            push_str(&mut out, ctx.as_str());
        }
        push_str(&mut out, " us=");
        push_decimal(&mut out, us);
        Some(string_of(&out))
    }

    /// Ends the scope: the log line for the time that, by the clock, has passed
    /// since the scope was started, if it reached the threshold.
    pub fn finish(&self) -> (r: Option<String>)
        ensures
            exists|us: u128| #[trigger]
                readings_of(self.started()).contains(us) && (match r {
                    Some(l) => scope_line(self.named(), self.context(), self.threshold(), us)
                        == Some(l@),
                    None => scope_line(self.named(), self.context(), self.threshold(), us) is None,
                }),
    {
        let us: u128 = elapsed_us(&self.start);
        assert(readings_of(self.started()).contains(us));
        self.report(us)
    }
}

/// Starts a scope with the default threshold.
pub fn scope(name: &'static str) -> (r: Scope)
    ensures
        r.named() == name@,
        r.context() is None,
        r.threshold() == DEFAULT_THRESHOLD_US,
{
    Scope::new(name)
}

/// Starts a scope with a context string.
pub fn scope_with(name: &'static str, ctx: String) -> (r: Scope)
    ensures
        r.named() == name@,
        r.context() == Some(ctx@),
        r.threshold() == DEFAULT_THRESHOLD_US,
{
    Scope::with_ctx(name, ctx)
}

/// Starts a scope with a threshold in microseconds.
pub fn scope_gt(name: &'static str, threshold_us: u128) -> (r: Scope)
    ensures
        r.named() == name@,
        r.context() is None,
        r.threshold() == threshold_us,
{
    Scope::with_threshold(name, threshold_us)
}

/// Gathers many small measurements for one log line.
#[derive(Debug)]
pub struct Accumulator {
    pub name: &'static str,
    pub count: u64,
    pub total_us: u128,
    pub max_us: u128,
}

impl Accumulator {
    pub fn new(name: &'static str) -> (r: Self)
        ensures
            r.name@ == name@,
            r.count == 0,
            r.total_us == 0,
            r.max_us == 0,
    {
        Accumulator { name, count: 0, total_us: 0, max_us: 0 }
    }

    /// Adds one measurement.
    pub fn add(&mut self, us: u128)
        requires
            old(self).count < u64::MAX,
            old(self).total_us + us <= u128::MAX,
        ensures
            final(self).name == old(self).name,
            final(self).count == old(self).count + 1,
            final(self).total_us == old(self).total_us + us,
            final(self).max_us == (if us > old(self).max_us {
                us
            } else {
                old(self).max_us
            }),
    {
        self.count = self.count + 1;
        self.total_us = self.total_us + us;
        if us > self.max_us {
            self.max_us = us;
        }
    }

    /// The line of everything gathered.
    pub open spec fn line(&self) -> Option<Seq<char>> {
        if self.count > 0 {
            Some(
                "perf="@ + self.name@ + " count="@ + crate::text::decimal(self.count as nat)
                    + " total_us="@ + crate::text::decimal(self.total_us as nat) + " avg_us="@
                    + crate::text::decimal((self.total_us as nat) / (self.count as nat))
                    + " max_us="@ + crate::text::decimal(self.max_us as nat),
            )
        } else {
            None
        }
    }

    /// The log line of everything gathered, if there is anything; gathering
    /// starts afresh.
    pub fn log_and_reset(&mut self) -> (r: Option<String>)
        ensures
            match r {
                Some(l) => old(self).line() == Some(l@),
                None => old(self).line() is None,
            },
            final(self).name == old(self).name,
            final(self).count == 0,
            final(self).total_us == 0,
            final(self).max_us == 0,
    {
        let r: Option<String> = if self.count > 0 {
            let mut out = chars_of("perf=");
            push_str(&mut out, self.name);
            push_str(&mut out, " count=");
            push_decimal(&mut out, self.count as u128);
            push_str(&mut out, " total_us=");
            push_decimal(&mut out, self.total_us);
            push_str(&mut out, " avg_us=");
            push_decimal(&mut out, self.total_us / self.count as u128);
            push_str(&mut out, " max_us=");
            push_decimal(&mut out, self.max_us);
            Some(string_of(&out))
        } else {
            None
        };
        self.count = 0;
        self.total_us = 0;
        self.max_us = 0;
        r
    }
}

/// What took less than the threshold is not told; anything else is, with its name
/// and how long it took.
pub proof fn law_slow_work_is_told(name: Seq<char>, threshold_us: u128, us: u128)
    ensures
        us < threshold_us ==> scope_line(name, None, threshold_us, us) is None,
        us >= threshold_us ==> scope_line(name, None, threshold_us, us) == Some(
            "perf="@ + name + " us="@ + crate::text::decimal(us as nat),
        ),
        forall|ctx: Seq<char>|
            us >= threshold_us ==> #[trigger] scope_line(name, Some(ctx), threshold_us, us) == Some(
                "perf="@ + name + " ctx="@ + ctx + " us="@ + crate::text::decimal(us as nat),
            ),
{
}

} // verus!
