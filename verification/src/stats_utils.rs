//! The clock, log lines, and the last five timestamps of a field.

use std::collections::VecDeque;
use std::time::{Duration, SystemTime, SystemTimeError};
use vstd::prelude::*;
use vstd::string::*;

use crate::arith;
use crate::fold;
use crate::text;

verus! {

// ---------------------------------------------------------------- the clock

/// `std::time::SystemTimeError`, carried unread: the clock stands before the Unix epoch.
#[verifier::external_type_specification]
#[verifier::external_body]
pub struct ExSystemTimeError(SystemTimeError);

/// `std::time::SystemTimeError::duration`: how far before the epoch the clock stands. Nothing is
/// claimed of the result.
pub assume_specification[ SystemTimeError::duration ](e: &SystemTimeError) -> (r: Duration);

/// `std::time::Duration::as_secs`: the whole seconds of a duration. Nothing is claimed of the
/// result, since nothing is known of the duration.
pub assume_specification[ Duration::as_secs ](d: &Duration) -> (r: u64);

/// Calls `std::time::SystemTime::elapsed` on the Unix epoch. The clock may show anything, so
/// nothing is claimed of the result.
#[verifier::external_body]
fn since_epoch() -> (r: Result<Duration, SystemTimeError>) {
    SystemTime::UNIX_EPOCH.elapsed()
}

/// The time that the clock shows, from the whole seconds that it stands behind the Unix epoch, or
/// before it, cut off where they do not fit.
pub open spec fn clock_time(elapsed: Result<u64, u64>) -> int {
    match elapsed {
        Ok(s) => if s <= i64::MAX {
            s as int
        } else {
            i64::MAX as int
        },
        Err(s) => if s <= i64::MAX {
            -s
        } else {
            -i64::MAX
        },
    }
}

/// The time that the clock shows, from the whole seconds that it stands behind the Unix epoch, or
/// before it.
pub fn seconds_of(elapsed: Result<u64, u64>) -> (r: i64)
    ensures
        r == clock_time(elapsed),
{
    match elapsed {
        Ok(s) => if s < 0x8000_0000_0000_0000 {
            s as i64
        } else {
            i64::MAX
        },
        Err(s) => if s < 0x8000_0000_0000_0000 {
            -(s as i64)
        } else {
            -i64::MAX
        },
    }
}

/// The current time in whole seconds since the Unix epoch, negative before it. The clock may show
/// anything, so the result is any time there is.
pub fn curtime() -> (r: i64)
    ensures
        exists|elapsed: Result<u64, u64>| r == #[trigger] clock_time(elapsed),
{
    match since_epoch() {
        Ok(d) => seconds_of(Ok(d.as_secs())),
        Err(e) => seconds_of(Err(e.duration().as_secs())),
    }
}

// ---------------------------------------------------------------- log lines

/// The line that is logged for a record: time, thread (where asked for), level, target, message.
pub open spec fn log_text(
    time: Seq<char>,
    thread: Option<Option<Seq<char>>>,
    level: Seq<char>,
    target: Seq<char>,
    message: Seq<char>,
) -> Seq<char> {
    let thread_text = match thread {
        Some(Some(name)) => "(t: "@ + name + ") "@,
        Some(None) => "(t: "@ + "unknown"@ + ") "@,
        None => Seq::empty(),
    };
    time + " "@ + thread_text + level + " - "@ + target + " - "@ + message + "\n"@
}

/// The views of a thread name, where one is logged and known.
pub open spec fn thread_view(log_thread: bool, name: Option<&str>) -> Option<Option<Seq<char>>> {
    if log_thread {
        match name {
            Some(n) => Some(Some(n@)),
            None => Some(None),
        }
    } else {
        None
    }
}

/// Composes a log line. The thread is named where `log_thread` holds, as `unknown` where it has
/// no name.
pub fn log_line(
    time: &str,
    log_thread: bool,
    thread_name: Option<&str>,
    level: &str,
    target: &str,
    message: &str,
) -> (r: String)
    ensures
        r@ == log_text(time@, thread_view(log_thread, thread_name), level@, target@, message@),
{
    let mut out: String = String::new();
    out.append(time);
    out.append(" ");
    if log_thread {
        out.append("(t: ");
        match thread_name {
            Some(name) => out.append(name),
            None => out.append("unknown"),
        }
        out.append(") ");
    }
    out.append(level);
    out.append(" - ");
    out.append(target);
    out.append(" - ");
    out.append(message);
    out.append("\n");
    assert(out@ =~= log_text(
        time@,
        thread_view(log_thread, thread_name),
        level@,
        target@,
        message@,
    ));
    out
}

// ---------------------------------------------------------------- the last timestamps

/// At most five timestamps are kept.
pub open spec fn recent(s: Seq<i64>) -> Seq<i64> {
    if s.len() > 5 {
        s.skip(s.len() - 5)
    } else {
        s
    }
}

/// The differences of neighbouring timestamps.
pub open spec fn steps(s: Seq<i64>) -> Seq<int> {
    if s.len() < 2 {
        Seq::empty()
    } else {
        Seq::new((s.len() - 1) as nat, |i: int| s[i + 1] - s[i])
    }
}

/// The mean of the differences, rounded toward zero; 0 where there is none.
pub open spec fn steps_mean(s: Seq<i64>) -> int {
    if s.len() < 2 {
        0
    } else {
        arith::quotient(fold::total(steps(s), |d: int| d), s.len() - 1)
    }
}

/// The squared distance from `mean`.
pub open spec fn squared_distance(mean: int) -> spec_fn(int) -> int {
    |d: int| (d - mean) * (d - mean)
}

/// The sum of the squared distances of the differences from their mean.
pub open spec fn squares(s: Seq<i64>) -> int {
    fold::total(steps(s), squared_distance(steps_mean(s)))
}

/// What the standard deviation of the differences is the square root of.
#[derive(Debug, Clone, Copy, PartialEq, Eq, Structural)]
pub enum Spread {
    /// There are fewer than two differences.
    Undefined,
    /// The sum of squares does not fit.
    TooLarge,
    /// `squares / divisor`.
    Ratio { squares: i128, divisor: usize },
}

/// The spread of the differences of `s`.
pub open spec fn spread_of(s: Seq<i64>) -> Spread {
    if s.len() < 3 {
        Spread::Undefined
    } else if squares(s) > i128::MAX {
        Spread::TooLarge
    } else {
        Spread::Ratio { squares: squares(s) as i128, divisor: (s.len() - 2) as usize }
    }
}

/// The timestamps as decimal numerals, separated by commas.
pub open spec fn timestamps_text(s: Seq<i64>) -> Seq<char> {
    text::joined(s.map_values(|t: i64| text::decimal(t as int)), ", "@)
}

pub proof fn lemma_steps_telescope(s: Seq<i64>, i: int)
    requires
        0 <= i <= steps(s).len(),
        s.len() >= 2,
    ensures
        fold::total(steps(s).take(i), |d: int| d) == s[i] - s[0],
    decreases i,
{
    if i > 0 {
        fold::lemma_prefix(steps(s), i - 1);
        lemma_steps_telescope(s, i - 1);
    }
}

/// The timestamps at which a field was last seen, oldest first, at most five.
#[derive(Debug)]
pub struct Last5Timestamps {
    timestamps: VecDeque<i64>,
}

impl View for Last5Timestamps {
    type V = Seq<i64>;

    closed spec fn view(&self) -> Seq<i64> {
        self.timestamps@
    }
}

impl Clone for Last5Timestamps {
    fn clone(&self) -> (r: Self)
        ensures
            r@ == self@,
    {
        let n: usize = self.timestamps.len();
        let mut timestamps: VecDeque<i64> = VecDeque::with_capacity(5);
        let mut i: usize = 0;
        while i < n
            invariant
                i <= n == self@.len(),
                timestamps@ == self@.take(i as int),
            decreases n - i,
        {
            proof {
                fold::lemma_prefix(self@, i as int);
            }
            timestamps.push_back(self.timestamps[i]);
            i = i + 1;
        }
        assert(self@.take(n as int) =~= self@);
        Last5Timestamps { timestamps }
    }
}

impl Last5Timestamps {
    /// No timestamps.
    pub fn new() -> (r: Self)
        ensures
            r@ == Seq::<i64>::empty(),
    {
        Last5Timestamps { timestamps: VecDeque::with_capacity(5) }
    }

    /// One timestamp.
    pub fn new_with_val(timestamp: i64) -> (r: Self)
        ensures
            r@ == seq![timestamp],
    {
        let mut timestamps: VecDeque<i64> = VecDeque::with_capacity(5);
        timestamps.push_back(timestamp);
        assert(timestamps@ =~= seq![timestamp]);
        Last5Timestamps { timestamps }
    }

    /// Adds a timestamp; the oldest ones give way.
    pub fn push(&mut self, val: i64)
        ensures
            final(self)@ == recent(old(self)@.push(val)),
            final(self)@.len() <= 5,
    {
        while self.timestamps.len() >= 5
            invariant
                self@.len() <= old(self)@.len(),
                self@ == old(self)@.skip(old(self)@.len() - self@.len()),
                self@.len() < old(self)@.len() ==> self@.len() >= 4,
            decreases self@.len(),
        {
            let _ = self.timestamps.pop_front();
            assert(self@ =~= old(self)@.skip(old(self)@.len() - self@.len()));
        }
        self.timestamps.push_back(val);
        assert(self@ =~= recent(old(self)@.push(val)));
    }

    /// Takes the oldest timestamp out.
    pub fn pop(&mut self) -> (r: Option<i64>)
        ensures
            old(self)@.len() == 0 ==> r is None && final(self)@ == old(self)@,
            old(self)@.len() > 0 ==> r == Some(old(self)@[0]) && final(self)@ == old(self)@.skip(1),
    {
        let r: Option<i64> = self.timestamps.pop_front();
        assert(old(self)@.len() > 0 ==> self@ =~= old(self)@.skip(1));
        r
    }

    /// Drops the oldest timestamp, where there is one.
    pub fn drop_front(&mut self)
        ensures
            final(self)@ == (if old(self)@.len() == 0 {
                old(self)@
            } else {
                old(self)@.skip(1)
            }),
    {
        let _ = self.pop();
    }

    /// How many timestamps there are.
    pub fn len(&self) -> (r: usize)
        ensures
            r == self@.len(),
    {
        self.timestamps.len()
    }

    /// The differences of neighbouring timestamps.
    pub fn differences(&self) -> (r: Vec<i128>)
        ensures
            r@.map_values(|d: i128| d as int) == steps(self@),
    {
        let mut diffs: Vec<i128> = Vec::new();
        let n: usize = self.timestamps.len();
        if n >= 2 {
            let mut i: usize = 0;
            while i < n - 1
                invariant
                    2 <= n == self@.len(),
                    i <= n - 1,
                    diffs@.len() == i,
                    forall|k: int| 0 <= k < i ==> #[trigger] diffs@[k] == self@[k + 1] - self@[k],
                decreases n - i,
            {
                diffs.push(self.timestamps[i + 1] as i128 - self.timestamps[i] as i128);
                i = i + 1;
            }
        }
        assert(diffs@.map_values(|d: i128| d as int) =~= steps(self@));
        diffs
    }

    /// The mean of the differences, rounded toward zero; 0 where there is none.
    pub fn differences_mean(&self) -> (r: i128)
        ensures
            r == steps_mean(self@),
            -0x1_0000_0000_0000_0000 < r < 0x1_0000_0000_0000_0000,
    {
        let n: usize = self.timestamps.len();
        if n < 2 {
            return 0;
        }
        proof {
            lemma_steps_telescope(self@, steps(self@).len() as int);
            assert(steps(self@).take(steps(self@).len() as int) =~= steps(self@));
        }
        let span: i128 = self.timestamps[n - 1] as i128 - self.timestamps[0] as i128;
        let r: i128 = arith::divide(span, (n - 1) as i128);
        assert(-0x1_0000_0000_0000_0000 < r < 0x1_0000_0000_0000_0000) by (nonlinear_arith)
            requires
                n >= 2,
                -0x1_0000_0000_0000_0000 < span < 0x1_0000_0000_0000_0000,
                r == arith::quotient(span as int, (n - 1) as int),
        ;
        r
    }

    /// The spread of the differences: what their standard deviation is the square root of.
    pub fn differences_spread(&self) -> (r: Spread)
        ensures
            r == spread_of(self@),
    {
        let mean: i128 = self.differences_mean();
        let diffs: Vec<i128> = self.differences();
        let ghost all = steps(self@);
        let ghost f = squared_distance(mean as int);
        if diffs.len() < 2 {
            assert(all.len() == diffs@.len());
            return Spread::Undefined;
        }
        assert forall|k: int| 0 <= k < all.len() implies f(#[trigger] all[k]) >= 0 by {
            let d = all[k] - mean;
            assert(d * d >= 0) by (nonlinear_arith);
        }
        let mut sum: i128 = 0;
        let mut i: usize = 0;
        while i < diffs.len()
            invariant
                i <= diffs@.len(),
                2 <= diffs@.len() == all.len(),
                all == steps(self@),
                f == squared_distance(mean as int),
                mean == steps_mean(self@),
                self@.len() >= 3,
                -0x1_0000_0000_0000_0000 < mean < 0x1_0000_0000_0000_0000,
                diffs@.map_values(|d: i128| d as int) == all,
                forall|k: int| 0 <= k < all.len() ==> f(#[trigger] all[k]) >= 0,
                sum == fold::total(all.take(i as int), f),
                0 <= sum,
            decreases diffs.len() - i,
        {
            proof {
                fold::lemma_prefix(all, i as int);
                fold::lemma_total_prefix(all, i + 1, f);
                assert(diffs@.map_values(|d: i128| d as int)[i as int] == all[i as int]);
                assert(f(all[i as int]) >= 0);
            }
            let distance: i128 = diffs[i] - mean;
            match distance.checked_mul(distance) {
                None => {
                    return Spread::TooLarge;
                },
                Some(square) => match sum.checked_add(square) {
                    None => {
                        return Spread::TooLarge;
                    },
                    Some(next) => {
                        sum = next;
                    },
                },
            }
            i = i + 1;
        }
        proof {
            assert(all.take(i as int) =~= all);
        }
        Spread::Ratio { squares: sum, divisor: self.timestamps.len() - 2 }
    }

    /// The timestamps as decimal numerals, separated by commas.
    pub fn to_string(&self) -> (r: String)
        ensures
            r@ == timestamps_text(self@),
    {
        let mut out: String = String::new();
        let ghost parts = self@.map_values(|t: i64| text::decimal(t as int));
        let n: usize = self.timestamps.len();
        let mut i: usize = 0;
        while i < n
            invariant
                i <= n == self@.len(),
                parts == self@.map_values(|t: i64| text::decimal(t as int)),
                out@ == text::joined(parts.take(i as int), ", "@),
            decreases n - i,
        {
            proof {
                fold::lemma_prefix(parts, i as int);
            }
            if i > 0 {
                out.append(", ");
            }
            text::push_decimal(&mut out, self.timestamps[i] as i128);
            assert(out@ =~= text::joined(parts.take(i + 1), ", "@));
            i = i + 1;
        }
        assert(parts.take(n as int) =~= parts);
        out
    }
}

} // verus!
