//! Numerals, lists of texts, timestamps and settings as they are written and read.

use vstd::prelude::*;

use crate::config;
use crate::config::Precision;
use crate::fold;
use crate::laws::silence;
use crate::stats_utils;
use crate::stats_utils::{Last5Timestamps, Spread};
use crate::text;
use crate::value::{InfluxValue, Piece};

verus! {

// ---------------------------------------------------------------- numerals

/// The text is made of digits, of which there is at least one.
pub open spec fn digits(s: Seq<char>) -> bool {
    s.len() > 0 && forall|i: int| 0 <= i < s.len() ==> '0' <= #[trigger] s[i] && s[i] <= '9'
}

/// What a row of digits is worth, each ten times what it would be worth one place further right.
pub open spec fn worth(s: Seq<char>) -> int
    decreases s.len(),
{
    if s.len() == 0 {
        0
    } else {
        worth(s.drop_last()) * 10 + (s[s.len() - 1] as int - '0' as int)
    }
}

proof fn lemma_worth(s: Seq<char>)
    requires
        forall|i: int| 0 <= i < s.len() ==> '0' <= #[trigger] s[i] && s[i] <= '9',
    ensures
        worth(s) >= 0,
        worth(s) == text::numeral_value(s),
    decreases s.len(),
{
    if s.len() > 0 {
        let t = s.drop_last();
        assert forall|i: int| 0 <= i < t.len() implies '0' <= #[trigger] t[i] && t[i] <= '9' by {
            assert(t[i] == s[i]);
        }
        lemma_worth(t);
        assert('0' <= s[s.len() - 1]);
    }
}

proof fn lemma_digits(s: Seq<char>)
    ensures
        text::is_numeral(s) <==> digits(s),
{
}

/// The numeral of a number is a row of digits that is worth it and does not begin with a needless
/// zero; that of a negative number has a minus sign before it.
pub proof fn law_decimal(v: int)
    ensures
        v >= 0 ==> digits(text::decimal(v)) && worth(text::decimal(v)) == v && (
        text::decimal(v).len() > 1 ==> text::decimal(v)[0] != '0'),
        v < 0 ==> text::decimal(v) == seq!['-'] + text::decimal(-v),
{
    if v >= 0 {
        text::lemma_natural(v as nat);
        lemma_digits(text::decimal(v));
        lemma_worth(text::decimal(v));
        lemma_no_needless_zero(v as nat);
    }
}

proof fn lemma_no_needless_zero(n: nat)
    ensures
        text::natural(n).len() > 0,
        n > 0 ==> text::natural(n)[0] != '0',
        n < 10 ==> text::natural(n).len() == 1,
    decreases n,
{
    if n >= 10 {
        lemma_no_needless_zero(n / 10);
        assert(text::natural(n)[0] == text::natural(n / 10)[0]);
    } else {
        assert(text::digit(n) as int == 48 + n);
    }
}

/// Different numbers have different numerals.
pub proof fn law_decimal_distinct(v: int, w: int)
    requires
        text::decimal(v) == text::decimal(w),
    ensures
        v == w,
{
    law_decimal(v);
    law_decimal(w);
    if v < 0 {
        law_decimal(-v);
        assert(text::decimal(v)[0] == '-');
        assert(text::decimal(v).skip(1) =~= text::decimal(-v));
    }
    if w < 0 {
        law_decimal(-w);
        assert(text::decimal(w)[0] == '-');
        assert(text::decimal(w).skip(1) =~= text::decimal(-w));
    }
    if v >= 0 {
        assert('0' <= text::decimal(v)[0]);
    }
    if w >= 0 {
        assert('0' <= text::decimal(w)[0]);
    }
}

/// The text of a number is its numeral, and appending the numeral puts it at the end.
pub proof fn law_decimal_text(v: i128, r: String, out: &mut String)
    requires
        call_ensures(text::decimal_text, (v,), r),
        call_ensures(text::push_decimal, (out, v), ()),
    ensures
        final(out)@ == old(out)@ + r@,
        v >= 0 ==> digits(r@) && worth(r@) == v,
        v < 0 ==> r@[0] == '-' && digits(r@.skip(1)) && worth(r@.skip(1)) == -v,
{
    law_decimal(v as int);
    if v < 0 {
        law_decimal(-v);
        assert(r@.skip(1) =~= text::decimal(-v));
    }
}

/// A number is read from digits with at most one sign before them, where it fits, and from nothing
/// else.
pub proof fn law_parse_i64(s: &str, r: Option<i64>)
    requires
        call_ensures(text::parse_i64, (s,), r),
    ensures
        digits(s@) ==> r == (if worth(s@) <= i64::MAX {
            Some(worth(s@) as i64)
        } else {
            None
        }),
        s@.len() > 0 && s@[0] == '+' && digits(s@.skip(1)) ==> r == (if worth(s@.skip(1))
            <= i64::MAX {
            Some(worth(s@.skip(1)) as i64)
        } else {
            None
        }),
        s@.len() > 0 && s@[0] == '-' && digits(s@.skip(1)) ==> r == (if worth(s@.skip(1))
            <= 0x8000_0000_0000_0000 {
            Some((-worth(s@.skip(1))) as i64)
        } else {
            None
        }),
        r is Some ==> digits(s@) || (s@.len() > 0 && (s@[0] == '+' || s@[0] == '-') && digits(
            s@.skip(1),
        )),
{
    lemma_digits(s@);
    if s@.len() > 0 {
        lemma_digits(s@.skip(1));
        if digits(s@.skip(1)) {
            lemma_worth(s@.skip(1));
        }
    }
    if digits(s@) {
        lemma_worth(s@);
        assert('0' <= s@[0]);
    }
}

/// A count is read from digits with at most a plus sign before them, where it fits, and from
/// nothing else.
pub proof fn law_parse_usize(s: &str, r: Option<usize>)
    requires
        call_ensures(text::parse_usize, (s,), r),
    ensures
        digits(s@) ==> r == (if worth(s@) <= usize::MAX {
            Some(worth(s@) as usize)
        } else {
            None
        }),
        s@.len() > 0 && s@[0] == '+' && digits(s@.skip(1)) ==> r == (if worth(s@.skip(1))
            <= usize::MAX {
            Some(worth(s@.skip(1)) as usize)
        } else {
            None
        }),
        r is Some ==> digits(s@) || (s@.len() > 0 && s@[0] == '+' && digits(s@.skip(1))),
{
    lemma_digits(s@);
    if s@.len() > 0 {
        lemma_digits(s@.skip(1));
        if digits(s@.skip(1)) {
            lemma_worth(s@.skip(1));
        }
    }
    if digits(s@) {
        lemma_worth(s@);
        assert('0' <= s@[0]);
    }
}

// ---------------------------------------------------------------- lists and order

/// Parts joined are the first parts joined, the separator, and the other parts joined.
pub proof fn law_joined(a: Seq<Seq<char>>, b: Seq<Seq<char>>, x: Seq<char>, separator: Seq<char>)
    ensures
        text::joined(Seq::empty(), separator) == Seq::<char>::empty(),
        text::joined(seq![x], separator) == x,
        a.len() > 0 && b.len() > 0 ==> text::joined(a + b, separator) == text::joined(a, separator)
            + separator + text::joined(b, separator),
    decreases b.len(),
{
    if a.len() > 0 && b.len() > 0 {
        assert((a + b).drop_last() =~= a + b.drop_last());
        assert((a + b).last() == b.last());
        if b.len() > 1 {
            law_joined(a, b.drop_last(), x, separator);
            assert(text::joined(a + b, separator) =~= text::joined(a, separator) + separator
                + text::joined(b, separator));
        } else {
            assert(a + b.drop_last() =~= a);
        }
    }
}

/// Where the texts first differ, `a` has the lesser character, or `b` goes on where `a` ends.
pub open spec fn in_order(a: Seq<char>, b: Seq<char>) -> bool {
    ||| a.len() <= b.len() && a == b.take(a.len() as int)
    ||| exists|k: int|
        0 <= k < a.len() && k < b.len() && a.take(k) == b.take(k) && (#[trigger] a[k]) < b[k]
}

/// The order of texts is that of the characters where they first differ.
pub proof fn law_order(a: Seq<char>, b: Seq<char>)
    ensures
        text::not_after(a, b) <==> in_order(a, b),
    decreases a.len(),
{
    if a.len() == 0 {
        assert(a =~= b.take(0));
    } else if b.len() > 0 {
        let p = a.skip(1);
        let q = b.skip(1);
        if a[0] == b[0] {
            law_order(p, q);
            if in_order(p, q) {
                if p.len() <= q.len() && p == q.take(p.len() as int) {
                    assert forall|i: int| 0 <= i < a.len() implies #[trigger] a[i] == b.take(
                        a.len() as int,
                    )[i] by {
                        if i > 0 {
                            assert(p[i - 1] == q.take(p.len() as int)[i - 1]);
                        }
                    }
                    assert(a =~= b.take(a.len() as int));
                } else {
                    let k = choose|k: int|
                        0 <= k < p.len() && k < q.len() && p.take(k) == q.take(k) && (
                        #[trigger] p[k]) < q[k];
                    let l = k + 1;
                    assert forall|i: int| 0 <= i < l implies #[trigger] a.take(l)[i] == b.take(
                        l,
                    )[i] by {
                        if i > 0 {
                            assert(p.take(k)[i - 1] == q.take(k)[i - 1]);
                        }
                    }
                    assert(a.take(k + 1) =~= b.take(k + 1));
                    assert(a[k + 1] < b[k + 1]);
                }
            }
            if in_order(a, b) {
                if a.len() <= b.len() && a == b.take(a.len() as int) {
                    assert forall|i: int| 0 <= i < p.len() implies #[trigger] p[i] == q.take(
                        p.len() as int,
                    )[i] by {
                        assert(a[i + 1] == b.take(a.len() as int)[i + 1]);
                    }
                    assert(p =~= q.take(p.len() as int));
                } else {
                    let k = choose|k: int|
                        0 <= k < a.len() && k < b.len() && a.take(k) == b.take(k) && (
                        #[trigger] a[k]) < b[k];
                    let l = k - 1;
                    assert forall|i: int| 0 <= i < l implies #[trigger] p.take(l)[i] == q.take(
                        l,
                    )[i] by {
                        assert(a.take(k)[i + 1] == b.take(k)[i + 1]);
                    }
                    assert(p.take(k - 1) =~= q.take(k - 1));
                    assert(p[k - 1] < q[k - 1]);
                }
            }
        } else {
            if a[0] < b[0] {
                assert(a.take(0) =~= b.take(0));
            }
            if in_order(a, b) {
                if a.len() <= b.len() && a == b.take(a.len() as int) {
                    assert(a[0] == b.take(a.len() as int)[0]);
                } else {
                    let k = choose|k: int|
                        0 <= k < a.len() && k < b.len() && a.take(k) == b.take(k) && (
                        #[trigger] a[k]) < b[k];
                    if k > 0 {
                        assert(a.take(k)[0] == b.take(k)[0]);
                    }
                }
            }
        }
    } else if in_order(a, b) {
        assert(!(a.len() <= b.len()));
    }
}

/// Texts are told apart by their first difference, and are the same where there is none.
pub proof fn law_texts(a: &str, b: &str, r: bool, same: bool)
    requires
        call_ensures(text::text_not_after, (a, b), r),
        call_ensures(text::same_text, (a, b), same),
    ensures
        r <==> in_order(a@, b@),
        same <==> a@ == b@,
{
    law_order(a@, b@);
}

/// A text is split where its commas are: the parts hold none, and with commas between them they are
/// the text again.
pub proof fn law_split(s: &str, r: Vec<String>, parts: Seq<Seq<char>>)
    requires
        call_ensures(text::split_commas, (s,), r),
        parts.len() > 0,
        text::joined(parts, seq![',']) == s@,
        forall|i: int| 0 <= i < parts.len() ==> !(#[trigger] parts[i]).contains(','),
    ensures
        r@.len() == parts.len(),
        forall|i: int| 0 <= i < parts.len() ==> (#[trigger] r@[i])@ == parts[i],
{
    let own = text::views(r@);
    assert forall|i: int| 0 <= i < own.len() implies !(#[trigger] own[i]).contains(',') by {
        assert(own[i] == r@[i]@);
    }
    text::law_one_split(own, parts);
    assert forall|i: int| 0 <= i < parts.len() implies (#[trigger] r@[i])@ == parts[i] by {
        assert(own[i] == r@[i]@);
    }
}

// ---------------------------------------------------------------- timestamps

/// Pushing a timestamp keeps it and the four before it.
pub proof fn law_push(t: &mut Last5Timestamps, val: i64)
    requires
        t@.len() <= 5,
        call_ensures(Last5Timestamps::push, (t, val), ()),
    ensures
        old(t)@.len() < 5 ==> final(t)@ == old(t)@.push(val),
        old(t)@.len() == 5 ==> final(t)@ == seq![old(t)@[1], old(t)@[2], old(t)@[3], old(t)@[4], val],
{
    if t@.len() == 5 {
        assert(final(t)@ =~= seq![t@[1], t@[2], t@[3], t@[4], val]);
    }
}

/// The differences are those of each timestamp and the one before.
pub proof fn law_differences(t: &Last5Timestamps, r: Vec<i128>)
    requires
        call_ensures(Last5Timestamps::differences, (t,), r),
    ensures
        r@.len() == (if t@.len() < 2 {
            0
        } else {
            t@.len() - 1
        }),
        forall|i: int| 0 <= i < r@.len() ==> #[trigger] r@[i] == t@[i + 1] - t@[i],
{
    let d = r@.map_values(|d: i128| d as int);
    assert(d.len() == r@.len());
    assert forall|i: int| 0 <= i < r@.len() implies #[trigger] r@[i] == t@[i + 1] - t@[i] by {
        assert(d[i] == r@[i]);
        assert(d[i] == stats_utils::steps(t@)[i]);
    }
}

/// The mean of the differences is the time from the first timestamp to the last over their number,
/// in whole seconds, toward zero.
pub open spec fn mean_of(s: Seq<i64>, m: int) -> bool {
    let n = s.len() - 1;
    let span = s[n] - s[0];
    if s.len() < 2 {
        m == 0
    } else {
        &&& span >= 0 ==> m * n <= span < (m + 1) * n
        &&& span < 0 ==> (m - 1) * n < span <= m * n
    }
}

pub proof fn lemma_mean(s: Seq<i64>)
    ensures
        mean_of(s, stats_utils::steps_mean(s)),
{
    if s.len() >= 2 {
        stats_utils::lemma_steps_telescope(s, stats_utils::steps(s).len() as int);
        assert(stats_utils::steps(s).take(stats_utils::steps(s).len() as int)
            =~= stats_utils::steps(s));
        silence::law_quotient(s[s.len() - 1] - s[0], s.len() - 1);
    }
}

/// The mean that is told is that of the differences.
pub proof fn law_differences_mean(t: &Last5Timestamps, r: i128)
    requires
        call_ensures(Last5Timestamps::differences_mean, (t,), r),
    ensures
        mean_of(t@, r as int),
{
    lemma_mean(t@);
}

/// The square of the distance of the difference behind place `i` from the mean.
pub open spec fn square_at(s: Seq<i64>, m: int, i: int) -> int {
    (s[i + 1] - s[i] - m) * (s[i + 1] - s[i] - m)
}

/// What the standard deviation is the root of: the squared distances over one less than the number
/// of differences.
pub open spec fn spread_is(s: Seq<i64>, spread: Spread) -> bool {
    let m = stats_utils::steps_mean(s);
    let sum = square_at(s, m, 0) + square_at(s, m, 1) + (if s.len() > 3 {
        square_at(s, m, 2)
    } else {
        0
    }) + (if s.len() > 4 {
        square_at(s, m, 3)
    } else {
        0
    });
    if s.len() < 3 {
        spread is Undefined
    } else if sum > i128::MAX {
        spread is TooLarge
    } else {
        spread is Ratio && spread->squares == sum && spread->divisor == s.len() - 2
    }
}

pub proof fn lemma_spread(s: Seq<i64>)
    requires
        s.len() <= 5,
    ensures
        spread_is(s, stats_utils::spread_of(s)),
{
    if s.len() >= 3 {
        let d = stats_utils::steps(s);
        let m = stats_utils::steps_mean(s);
        let f = stats_utils::squared_distance(m);
        fold::lemma_prefix(d, 0);
        fold::lemma_prefix(d, 1);
        assert(fold::total(d.take(0), f) == 0);
        assert(fold::total(d.take(1), f) == square_at(s, m, 0));
        assert(fold::total(d.take(2), f) == square_at(s, m, 0) + square_at(s, m, 1));
        if s.len() > 3 {
            fold::lemma_prefix(d, 2);
            assert(fold::total(d.take(3), f) == fold::total(d.take(2), f) + square_at(s, m, 2));
        }
        if s.len() > 4 {
            fold::lemma_prefix(d, 3);
            assert(fold::total(d.take(4), f) == fold::total(d.take(3), f) + square_at(s, m, 3));
        }
        assert(d.take(d.len() as int) =~= d);
        assert forall|i: int| #[trigger] square_at(s, m, i) >= 0 by {
            let x = s[i + 1] - s[i] - m;
            assert(x * x >= 0) by (nonlinear_arith);
        }
        assert(stats_utils::squares(s) >= 0);
    }
}

/// The spread that is told is that of the differences.
pub proof fn law_differences_spread(t: &Last5Timestamps, r: Spread)
    requires
        t@.len() <= 5,
        call_ensures(Last5Timestamps::differences_spread, (t,), r),
    ensures
        spread_is(t@, r),
{
    lemma_spread(t@);
}

/// Timestamps are written as numerals with commas between them.
pub proof fn law_timestamps_text(a: Seq<i64>, b: Seq<i64>, x: i64)
    ensures
        stats_utils::timestamps_text(Seq::empty()) == Seq::<char>::empty(),
        stats_utils::timestamps_text(seq![x]) == text::decimal(x as int),
        a.len() > 0 && b.len() > 0 ==> stats_utils::timestamps_text(a + b)
            == stats_utils::timestamps_text(a) + ", "@ + stats_utils::timestamps_text(b),
{
    let f = |t: i64| text::decimal(t as int);
    law_joined(a.map_values(f), b.map_values(f), f(x), ", "@);
    assert(Seq::<i64>::empty().map_values(f) =~= Seq::<Seq<char>>::empty());
    assert(seq![x].map_values(f) =~= seq![f(x)]);
    assert((a + b).map_values(f) =~= a.map_values(f) + b.map_values(f));
}

/// The text of timestamps holds them all, in order.
pub proof fn law_timestamps_to_string(t: &Last5Timestamps, r: String)
    requires
        call_ensures(Last5Timestamps::to_string, (t,), r),
    ensures
        r@ == stats_utils::timestamps_text(t@),
{
}

// ---------------------------------------------------------------- the clock and the log

/// As long before the epoch as after it the clock shows the opposite time, and the time is the
/// seconds themselves where they fit.
pub proof fn law_clock(s: u64, after: i64, before: i64)
    requires
        call_ensures(stats_utils::seconds_of, (Ok::<u64, u64>(s),), after),
        call_ensures(stats_utils::seconds_of, (Err::<u64, u64>(s),), before),
    ensures
        before == -after,
        s <= i64::MAX ==> after == s,
        s > i64::MAX ==> after == i64::MAX,
{
}

/// A log line is the time, the thread where it is asked for, the level, the target and the message,
/// each in its place.
pub proof fn law_log_line(
    time: &str,
    log_thread: bool,
    thread_name: Option<&str>,
    level: &str,
    target: &str,
    message: &str,
    r: String,
)
    requires
        call_ensures(
            stats_utils::log_line,
            (time, log_thread, thread_name, level, target, message),
            r,
        ),
    ensures
        r@ == time@ + " "@ + (if log_thread {
            "(t: "@ + (if thread_name is Some {
                thread_name->0@
            } else {
                "unknown"@
            }) + ") "@
        } else {
            Seq::empty()
        }) + level@ + " - "@ + target@ + " - "@ + message@ + "\n"@,
{
}

// ---------------------------------------------------------------- settings

/// A precision is read from its own abbreviation, and nothing is read from any other text.
pub proof fn law_precision(value: &str, r: Option<Precision>)
    requires
        call_ensures(Precision::recognise, (value,), r),
    ensures
        r == Some(Precision::Second) <==> value@ == "s"@,
        r == Some(Precision::Millisecond) <==> value@ == "ms"@,
        r == Some(Precision::Nanosecond) <==> value@ == "ns"@,
{
    Precision::Second.law_abbreviation();
    Precision::Millisecond.law_abbreviation();
    Precision::Nanosecond.law_abbreviation();
}

/// A precision is written as its abbreviation.
pub proof fn law_precision_text(p: Precision, r: String)
    requires
        call_ensures(Precision::to_string, (p,), r),
    ensures
        p is Second ==> r@ == "s"@,
        p is Millisecond ==> r@ == "ms"@,
        p is Nanosecond ==> r@ == "ns"@,
{
}

/// A precision is made from its own abbreviation.
pub proof fn law_precision_from(value: String, r: Precision)
    requires
        call_ensures(Precision::from, (value,), r),
    ensures
        r is Second ==> value@ == "s"@,
        r is Millisecond ==> value@ == "ms"@,
        r is Nanosecond ==> value@ == "ns"@,
{
}

/// The Kafka client is set to the group and the brokers given, reads from the end and commits by
/// itself.
pub proof fn law_client_settings(group_id: &str, brokers: &str, r: Vec<(String, String)>)
    requires
        call_ensures(config::client_settings, (group_id, brokers), r),
    ensures
        r@.len() == 7,
        r@[0].0@ == "group.id"@ && r@[0].1@ == group_id@,
        r@[1].0@ == "bootstrap.servers"@ && r@[1].1@ == brokers@,
        r@[2].0@ == "enable.partition.eof"@ && r@[2].1@ == "false"@,
        r@[3].0@ == "session.timeout.ms"@ && r@[3].1@ == "30000"@,
        r@[4].0@ == "enable.auto.commit"@ && r@[4].1@ == "true"@,
        r@[5].0@ == "auto.offset.reset"@ && r@[5].1@ == "latest"@,
        r@[6].0@ == "client.id"@ && r@[6].1@ == "kafka-stats"@,
{
    let v = config::setting_views(r@);
    assert(v.len() == r@.len());
    assert(v[0] == (r@[0].0@, r@[0].1@));
    assert(v[1] == (r@[1].0@, r@[1].1@));
    assert(v[2] == (r@[2].0@, r@[2].1@));
    assert(v[3] == (r@[3].0@, r@[3].1@));
    assert(v[4] == (r@[4].0@, r@[4].1@));
    assert(v[5] == (r@[5].0@, r@[5].1@));
    assert(v[6] == (r@[6].0@, r@[6].1@));
}

// ---------------------------------------------------------------- values

/// A whole number is shown as its numeral, a text as it stands, a floating-point number by its
/// bits, and a truth value in words.
pub proof fn law_shown(v: &InfluxValue, r: Piece)
    requires
        call_ensures(InfluxValue::shown, (v,), r),
    ensures
        match *v {
            InfluxValue::I64(x) => r is Text && r->Text_0@ == text::decimal(x as int),
            InfluxValue::U64(x) => r is Text && r->Text_0@ == text::decimal(x as int),
            InfluxValue::F64(bits) => r == Piece::Float(bits),
            InfluxValue::String(t) => r is Text && r->Text_0@ == t@,
            InfluxValue::Boolean(b) => r is Text && r->Text_0@ == (if b {
                "true"@
            } else {
                "false"@
            }),
        },
{
    assert(r@ == v@.shown());
}

} // verus!
