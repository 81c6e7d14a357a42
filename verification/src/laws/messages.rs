//! What becomes of messages and of their lines.

use vstd::prelude::*;

use crate::cache::ValueCache;
use crate::config::Precision;
use crate::consumer;
use crate::consumer::{Line, LineOutcome, LineView, MessageError, TagView};
use crate::model::CacheView;

verus! {

// ---------------------------------------------------------------- lines

/// The tag at place `i` is the first with this key.
pub open spec fn first_tag(tags: Seq<TagView>, key: Seq<char>, i: int) -> bool {
    &&& 0 <= i < tags.len()
    &&& tags[i].0 == key
    &&& forall|j: int| 0 <= j < i ==> (#[trigger] tags[j]).0 != key
}

/// The value of a tag is that of the first with its key, and there is one where there is such a
/// tag.
pub proof fn law_tag_value(tags: Seq<TagView>, key: Seq<char>)
    ensures
        forall|i: int| #[trigger]
            first_tag(tags, key, i) ==> consumer::tag_value(tags, key) == Some(tags[i].1),
        consumer::tag_value(tags, key) is Some <==> exists|i: int|
            0 <= i < tags.len() && (#[trigger] tags[i]).0 == key,
    decreases tags.len(),
{
    if tags.len() > 0 {
        let t = tags.skip(1);
        law_tag_value(t, key);
        if tags[0].0 == key {
            assert forall|i: int| #[trigger] first_tag(tags, key, i) implies i == 0 by {
                if i > 0 {
                    assert(tags[0].0 != key);
                }
            }
        } else {
            assert forall|i: int| #[trigger]
                first_tag(tags, key, i) implies consumer::tag_value(tags, key) == Some(
                tags[i].1,
            ) by {
                assert forall|j: int| 0 <= j < i - 1 implies (#[trigger] t[j]).0 != key by {
                    assert(tags[j + 1].0 != key);
                }
                assert(first_tag(t, key, i - 1));
            }
            if exists|i: int| 0 <= i < tags.len() && (#[trigger] tags[i]).0 == key {
                let i = choose|i: int| 0 <= i < tags.len() && (#[trigger] tags[i]).0 == key;
                assert(t[i - 1].0 == key);
            }
            if exists|i: int| 0 <= i < t.len() && (#[trigger] t[i]).0 == key {
                let i = choose|i: int| 0 <= i < t.len() && (#[trigger] t[i]).0 == key;
                assert(tags[i + 1].0 == key);
            }
        }
    }
}

/// The timestamp of the line, or where it brings none that of its message.
pub open spec fn time_of(l: LineView, fallback: i64) -> i64 {
    if l.timestamp is Some {
        l.timestamp->0
    } else {
        fallback
    }
}

/// What the processing of a line does and says. A text that is no line, a line without tags and one
/// without a uid tag are told apart and change nothing. A line with a uid tag is recorded under the
/// value of the first such tag, at its own timestamp or, where it brings none, at that of its
/// message, and counted.
pub open spec fn line_processed(
    before: CacheView,
    after: CacheView,
    line: Result<LineView, Seq<char>>,
    fallback: i64,
    outcome: LineOutcome,
) -> bool {
    match line {
        Err(e) => outcome is Unparseable && outcome->Unparseable_0@ == e && after == before,
        Ok(l) => match l.tags {
            None => outcome is Untagged && after == before,
            Some(tags) => {
                &&& (forall|i: int|
                    0 <= i < tags.len() ==> (#[trigger] tags[i]).0 != "uid"@) ==> outcome is NoUid
                    && after == before
                &&& forall|i: int| #[trigger]
                    first_tag(tags, "uid"@, i) ==> {
                        ||| outcome is CountersFull && after == before && (before.ilp_line_count
                            >= usize::MAX || !before.room(tags[i].1, l.fields.len()))
                        ||| outcome is Recorded && exists|tag: Option<Seq<char>>|
                            after == counted(
                                #[trigger] before.recorded(
                                    tags[i].1,
                                    tag,
                                    l.fields,
                                    time_of(l, fallback),
                                    l.measurement,
                                ),
                            ) && (tag is Some <==> exists|j: int|
                                0 <= j < tags.len() && (#[trigger] tags[j]).0 == "Equipment-tag"@)
                                && forall|j: int| #[trigger]
                                first_tag(tags, "Equipment-tag"@, j) ==> tag == Some(tags[j].1)
                    }
            },
        },
    }
}

/// The cache with one more line counted.
pub open spec fn counted(c: CacheView) -> CacheView {
    CacheView { ilp_line_count: c.ilp_line_count + 1, ..c }
}

proof fn lemma_line_processed(
    before: CacheView,
    line: Result<LineView, Seq<char>>,
    fallback: i64,
    outcome: LineOutcome,
)
    requires
        outcome@ == consumer::line_outcome(before, line),
    ensures
        line_processed(
            before,
            consumer::after_line(before, line, fallback),
            line,
            fallback,
            outcome,
        ),
{
    let after = consumer::after_line(before, line, fallback);
    match line {
        Err(e) => {},
        Ok(l) => match l.tags {
            None => {},
            Some(tags) => {
                law_tag_value(tags, "uid"@);
                law_tag_value(tags, "Equipment-tag"@);
                assert forall|i: int| #[trigger] first_tag(tags, "uid"@, i) implies {
                    ||| outcome is CountersFull && after == before && (before.ilp_line_count
                        >= usize::MAX || !before.room(tags[i].1, l.fields.len()))
                    ||| outcome is Recorded && exists|tag: Option<Seq<char>>|
                        after == counted(
                            #[trigger] before.recorded(
                                tags[i].1,
                                tag,
                                l.fields,
                                time_of(l, fallback),
                                l.measurement,
                            ),
                        ) && (tag is Some <==> exists|j: int|
                            0 <= j < tags.len() && (#[trigger] tags[j]).0 == "Equipment-tag"@)
                            && forall|j: int| #[trigger]
                            first_tag(tags, "Equipment-tag"@, j) ==> tag == Some(tags[j].1)
                } by {
                    let tag = consumer::tag_value(tags, "Equipment-tag"@);
                    let r = before.recorded(
                        tags[i].1,
                        tag,
                        l.fields,
                        time_of(l, fallback),
                        l.measurement,
                    );
                    if outcome is Recorded {
                        assert(after == counted(r));
                    }
                }
            },
        },
    }
}

/// A line is recorded under its uid, or changes nothing and is told apart.
pub proof fn law_process_line(
    c: &mut ValueCache,
    line: Result<Line, String>,
    fallback: i64,
    r: LineOutcome,
)
    requires
        c.wf(),
        call_ensures(consumer::process_line, (c, line, fallback), r),
    ensures
        line_processed(old(c)@, final(c)@, consumer::line_view(line), fallback, r),
{
    lemma_line_processed(c@, consumer::line_view(line), fallback, r);
}

/// The room that a line needs: its values fit the count of values, and one more line the count of
/// its uid.
pub proof fn law_room(c: CacheView, uid: Seq<char>, n: nat)
    requires
        c.valid(),
    ensures
        c.room(uid, n) <==> c.fields_seen_count + n <= usize::MAX && forall|i: int|
            0 <= i < c.uids.len() && (#[trigger] c.uids[i]).uid == uid ==> c.uids[i].seen_count
                < usize::MAX,
{
    if crate::model::known_uid(c.uids, uid) {
        let j = crate::model::uid_place(c.uids, uid);
        assert(c.uids[j].uid == uid);
    }
}

/// Whether there is room for a line is whether its counts fit.
pub proof fn law_has_room(c: &ValueCache, uid: &str, n: usize, r: bool)
    requires
        c.wf(),
        call_ensures(ValueCache::has_room, (c, uid, n), r),
    ensures
        r <==> c@.fields_seen_count + n <= usize::MAX && forall|i: int|
            0 <= i < c@.uids.len() && (#[trigger] c@.uids[i]).uid == uid@ ==> c@.uids[i].seen_count
                < usize::MAX,
{
    c.lemma_valid();
    law_room(c@, uid@, n as nat);
}

/// Lines that follow others find the cache as those left it: what becomes of them, and of the cache,
/// is the same whether they come with the others or by themselves.
pub proof fn law_outcomes_one_behind_the_other(
    cache: CacheView,
    first: Seq<Result<LineView, Seq<char>>>,
    second: Seq<Result<LineView, Seq<char>>>,
    fallback: i64,
)
    ensures
        consumer::line_outcomes(cache, first + second, fallback) == consumer::line_outcomes(
            cache,
            first,
            fallback,
        ) + consumer::line_outcomes(
            consumer::after_lines(cache, first, fallback),
            second,
            fallback,
        ),
{
    let all = first + second;
    let middle = consumer::after_lines(cache, first, fallback);
    let a = consumer::line_outcomes(cache, all, fallback);
    let b = consumer::line_outcomes(cache, first, fallback) + consumer::line_outcomes(
        middle,
        second,
        fallback,
    );
    assert forall|i: int| 0 <= i < all.len() implies #[trigger] a[i] == b[i] by {
        if i < first.len() {
            assert(all.take(i) =~= first.take(i));
        } else {
            let k = i - first.len();
            assert(all.take(i) =~= first + second.take(k));
            crate::laws::law_lines_one_behind_the_other(cache, first, second.take(k), fallback);
        }
    }
    assert(a =~= b);
}

/// The outcome of one line is that of the line, and so is the cache after it.
pub proof fn law_one_line(
    cache: CacheView,
    line: Result<LineView, Seq<char>>,
    fallback: i64,
    outcome: LineOutcome,
)
    requires
        consumer::line_outcomes(cache, seq![line], fallback) == seq![outcome@],
    ensures
        line_processed(
            cache,
            consumer::after_lines(cache, seq![line], fallback),
            line,
            fallback,
            outcome,
        ),
        consumer::after_lines(cache, Seq::empty(), fallback) == cache,
{
    reveal_with_fuel(consumer::after_lines, 3);
    let lines = seq![line];
    assert(lines.drop_last() =~= Seq::empty());
    assert(lines.take(0) =~= Seq::empty());
    let o = consumer::line_outcomes(cache, lines, fallback);
    assert(o[0] == consumer::line_outcome(cache, line));
    assert(o[0] == outcome@);
    lemma_line_processed(cache, line, fallback, outcome);
}

/// The lines of a message have an outcome each.
pub proof fn law_process_lines(
    c: &mut ValueCache,
    lines: Vec<Result<Line, String>>,
    fallback: i64,
    r: Vec<LineOutcome>,
)
    requires
        c.wf(),
        call_ensures(consumer::process_lines, (c, lines, fallback), r),
    ensures
        r@.len() == lines@.len(),
        final(c)@ == consumer::after_lines(
            old(c)@,
            Seq::new(lines@.len(), |i: int| consumer::line_view(lines@[i])),
            fallback,
        ),
        forall|i: int|
            0 <= i < r@.len() ==> line_processed(
                consumer::after_lines(
                    old(c)@,
                    Seq::new(i as nat, |j: int| consumer::line_view(lines@[j])),
                    fallback,
                ),
                consumer::after_lines(
                    old(c)@,
                    Seq::new((i + 1) as nat, |j: int| consumer::line_view(lines@[j])),
                    fallback,
                ),
                consumer::line_view(lines@[i]),
                fallback,
                #[trigger] r@[i],
            ),
{
    let all = consumer::line_views(lines@);
    assert(Seq::new(lines@.len(), |i: int| consumer::line_view(lines@[i])) =~= all);
    let v = consumer::outcome_views(r@);
    assert(v.len() == r@.len());
    assert forall|i: int| 0 <= i < r@.len() implies line_processed(
        consumer::after_lines(
            c@,
            Seq::new(i as nat, |j: int| consumer::line_view(lines@[j])),
            fallback,
        ),
        consumer::after_lines(
            c@,
            Seq::new((i + 1) as nat, |j: int| consumer::line_view(lines@[j])),
            fallback,
        ),
        consumer::line_view(lines@[i]),
        fallback,
        #[trigger] r@[i],
    ) by {
        assert(v[i] == r@[i]@);
        let p = Seq::new(i as nat, |j: int| consumer::line_view(lines@[j]));
        let q = Seq::new((i + 1) as nat, |j: int| consumer::line_view(lines@[j]));
        assert(p =~= all.take(i));
        assert(q =~= all.take(i + 1));
        crate::fold::lemma_prefix(all, i);
        lemma_line_processed(
            consumer::after_lines(c@, p, fallback),
            consumer::line_view(lines@[i]),
            fallback,
            r@[i],
        );
    }
}

/// A text that is no line and a line without a uid tag are remarked on; nothing else is.
pub proof fn law_notice(o: &LineOutcome, r: Option<String>)
    requires
        call_ensures(LineOutcome::notice, (o,), r),
    ensures
        match *o {
            LineOutcome::Unparseable(e) => r is Some && r->0@ == "Skipping unparseable line: "@
                + e@,
            LineOutcome::NoUid => r is Some && r->0@ == "Skipping line without uid tag"@,
            _ => r is None,
        },
{
}

// ---------------------------------------------------------------- messages

/// The timestamp of lines that bring none is the time of the message in seconds, or a thousand
/// million times that in nanoseconds, where it fits; there is none in milliseconds.
pub proof fn law_fallback(now: i64, a: Option<i64>, b: Option<i64>, c: Option<i64>)
    requires
        call_ensures(consumer::fallback_timestamp, (Precision::Second, now), a),
        call_ensures(consumer::fallback_timestamp, (Precision::Nanosecond, now), b),
        call_ensures(consumer::fallback_timestamp, (Precision::Millisecond, now), c),
    ensures
        a == Some(now),
        b is Some ==> b->0 == now * 1_000_000_000,
        b is Some <==> i64::MIN <= now * 1_000_000_000 <= i64::MAX,
        c is None,
{
}

/// A payload that is text is that text; one that is none is empty.
pub proof fn law_payload_text(p: &str, a: &str, b: &str)
    requires
        call_ensures(consumer::payload_text, (Some(p),), a),
        call_ensures(consumer::payload_text, (None::<&str>,), b),
    ensures
        a@ == p@,
        b@.len() == 0,
{
    reveal_strlit("");
}

/// What a message does: it is counted, once, and its lines are recorded one behind the other at the
/// time of the message in the precision of the cache. In milliseconds there is no such time, and the
/// lines are left.
pub open spec fn message_processed(
    before: CacheView,
    after: CacheView,
    lines: Seq<Result<LineView, Seq<char>>>,
    now: int,
    answer: Result<Vec<LineOutcome>, MessageError>,
) -> bool {
    let counted = CacheView { kafka_message_count: before.kafka_message_count + 1, ..before };
    let time = match before.precision {
        Precision::Second => now,
        _ => now * 1_000_000_000,
    };
    if before.kafka_message_count >= usize::MAX {
        answer is Err && answer->Err_0 is CounterFull && after == before
    } else if before.precision is Millisecond || !(i64::MIN <= time <= i64::MAX) {
        answer is Err && answer->Err_0 is NoTimestamp && after == counted
    } else {
        &&& answer is Ok
        &&& answer->Ok_0@.len() == lines.len()
        &&& after == consumer::after_lines(counted, lines, time as i64)
        &&& forall|i: int|
            0 <= i < lines.len() ==> line_processed(
                consumer::after_lines(counted, lines.take(i), time as i64),
                consumer::after_lines(counted, lines.take(i + 1), time as i64),
                #[trigger] lines[i],
                time as i64,
                answer->Ok_0@[i],
            )
    }
}

proof fn lemma_message_processed(
    before: CacheView,
    after: CacheView,
    lines: Seq<Result<LineView, Seq<char>>>,
    now: int,
    answer: Result<Vec<LineOutcome>, MessageError>,
)
    requires
        i64::MIN <= now <= i64::MAX,
        consumer::message_dealt_with(before, after, lines, now, answer),
    ensures
        message_processed(before, after, lines, now, answer),
{
    let counted = CacheView { kafka_message_count: before.kafka_message_count + 1, ..before };
    assert(counted == before.with_counts(before.kafka_message_count + 1, before.ilp_line_count));
    let fallback = consumer::fallback_of(before.precision, now);
    if before.kafka_message_count < usize::MAX && fallback is Some {
        let t = fallback->0;
        let v = consumer::outcome_views(answer->Ok_0@);
        assert(v.len() == answer->Ok_0@.len());
        assert forall|i: int| 0 <= i < lines.len() implies line_processed(
            consumer::after_lines(counted, lines.take(i), t),
            consumer::after_lines(counted, lines.take(i + 1), t),
            #[trigger] lines[i],
            t,
            answer->Ok_0@[i],
        ) by {
            assert(v[i] == answer->Ok_0@[i]@);
            crate::fold::lemma_prefix(lines, i);
            lemma_line_processed(
                consumer::after_lines(counted, lines.take(i), t),
                lines[i],
                t,
                answer->Ok_0@[i],
            );
        }
    }
}

/// A message is counted and its lines are recorded, by the lines that were read of it.
pub proof fn law_process_parsed(
    c: &mut ValueCache,
    lines: Vec<Result<Line, String>>,
    now: i64,
    r: Result<Vec<LineOutcome>, MessageError>,
)
    requires
        c.wf(),
        call_ensures(consumer::process_parsed, (c, lines, now), r),
    ensures
        message_processed(
            old(c)@,
            final(c)@,
            Seq::new(lines@.len(), |i: int| consumer::line_view(lines@[i])),
            now as int,
            r,
        ),
{
    let all = Seq::new(lines@.len(), |i: int| consumer::line_view(lines@[i]));
    assert(all =~= consumer::line_views(lines@));
    lemma_message_processed(c@, final(c)@, all, now as int, r);
}

/// A message is counted and the lines of its payload are recorded, at the time given or by the
/// clock.
pub proof fn law_process_message(
    c: &mut ValueCache,
    d: &mut ValueCache,
    payload: &str,
    now: i64,
    r: Result<Vec<LineOutcome>, MessageError>,
    s: Result<Vec<LineOutcome>, MessageError>,
)
    requires
        c.wf(),
        d.wf(),
        call_ensures(consumer::process_message_at, (c, payload, now), r),
        call_ensures(consumer::process_message, (d, payload), s),
    ensures
        message_processed(
            old(c)@,
            final(c)@,
            consumer::parsed_lines(payload@),
            now as int,
            r,
        ),
        exists|then: i64| #[trigger]
            message_processed(
                old(d)@,
                final(d)@,
                consumer::parsed_lines(payload@),
                then as int,
                s,
            ),
{
    let lines = consumer::parsed_lines(payload@);
    lemma_message_processed(c@, final(c)@, lines, now as int, r);
    let then = choose|then: i64| #[trigger]
        consumer::message_dealt_with(d@, final(d)@, lines, then as int, s);
    lemma_message_processed(d@, final(d)@, lines, then as int, s);
}

/// A new cache has the settings that it was made with and has seen nothing, and so is one made by
/// the clock.
pub proof fn law_new(
    measurement: String,
    threshold: u64,
    precision: Precision,
    now: i64,
    r: ValueCache,
    s: ValueCache,
)
    requires
        call_ensures(ValueCache::new_at, (measurement, threshold, precision, now), r),
        call_ensures(ValueCache::new, (measurement, threshold, precision), s),
    ensures
        new_cache(r@, measurement@, threshold, precision),
        r@.created_timestamp == now,
        new_cache(s@, measurement@, threshold, precision),
{
}

/// The cache has these settings and has seen nothing.
pub open spec fn new_cache(
    c: CacheView,
    measurement: Seq<char>,
    threshold: u64,
    precision: Precision,
) -> bool {
    &&& c.output_measurement == measurement
    &&& c.minimum_inactivity_seconds == threshold
    &&& c.precision == precision
    &&& c.first_value_ts == i64::MAX
    &&& c.last_value_ts == i64::MIN
    &&& c.kafka_message_count == 0
    &&& c.ilp_line_count == 0
    &&& c.fields_seen_count == 0
    &&& c.fields_changed_count == 0
    &&& c.fields_sent_changed_count == 0
    &&& c.fields_sent_timeout_count == 0
    &&& c.fields_sent_initial_count == 0
    &&& c.fields_sent_suppressed_count == 0
    &&& c.uids.len() == 0
}

} // verus!
