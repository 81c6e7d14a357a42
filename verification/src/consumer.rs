//! Messages: the lines they hold, and what becomes of each.

use influxdb_line_protocol::parse_lines as parse;
use influxdb_line_protocol::FieldValue::{
    Boolean as BooleanField, F64 as F64Field, I64 as I64Field, String as StringField,
    U64 as U64Field,
};
use vstd::prelude::*;
use vstd::string::*;

use crate::cache;
use crate::cache::ValueCache;
use crate::config::Precision;
use crate::fold;
use crate::model::{CacheView, ItemView};
use crate::stats_utils::curtime;
use crate::value::InfluxValue;
use crate::value::InfluxValue::{Boolean, String as Text, F64, I64, U64};

verus! {

// ---------------------------------------------------------------- lines

/// A line of a message.
#[derive(Debug)]
pub struct Line {
    pub measurement: String,
    pub tags: Option<Vec<(String, String)>>,
    pub fields: Vec<(String, InfluxValue)>,
    pub timestamp: Option<i64>,
}

/// A tag: its key and its value.
pub type TagView = (Seq<char>, Seq<char>);

/// The model of a [`Line`].
pub struct LineView {
    pub measurement: Seq<char>,
    pub tags: Option<Seq<TagView>>,
    pub fields: Seq<ItemView>,
    pub timestamp: Option<i64>,
}

/// The models of the tags.
pub open spec fn tag_views(tags: Seq<(String, String)>) -> Seq<TagView> {
    tags.map_values(|t: (String, String)| (t.0@, t.1@))
}

impl View for Line {
    type V = LineView;

    open spec fn view(&self) -> LineView {
        LineView {
            measurement: self.measurement@,
            tags: match self.tags {
                Some(tags) => Some(tag_views(tags@)),
                None => None,
            },
            fields: cache::item_views(self.fields@),
            timestamp: self.timestamp,
        }
    }
}

/// The model of a line, or of the message that says why it is none.
pub open spec fn line_view(line: Result<Line, String>) -> Result<LineView, Seq<char>> {
    match line {
        Ok(l) => Ok(l@),
        Err(e) => Err(e@),
    }
}

/// The models of the lines.
pub open spec fn line_views(lines: Seq<Result<Line, String>>) -> Seq<
    Result<LineView, Seq<char>>,
> {
    lines.map_values(|l: Result<Line, String>| line_view(l))
}

/// The lines of a payload in the InfluxDB line protocol, as `influxdb_line_protocol` reads them.
pub uninterp spec fn parsed_lines(payload: Seq<char>) -> Seq<Result<LineView, Seq<char>>>;

/// Calls `influxdb_line_protocol::parse_lines`, which reads the lines of a payload and depends on
/// nothing else. Names, tags and texts come unescaped, a floating-point number as its bits, and
/// an error as the message that it shows.
#[verifier::external_body]
fn parse_lines(payload: &str) -> (r: Vec<Result<Line, String>>)
    ensures
        line_views(r@) == parsed_lines(payload@),
{
    parse(payload).map(|line| line.map_err(|e| e.to_string()).map(|l| Line {
        measurement: l.series.measurement.to_string(),
        tags: l.series.tag_set.map(|t| t.iter().map(|(k, v)| (k.to_string(), v.to_string())).collect()),
        fields: l.field_set.into_iter().map(|(k, v)| (k.to_string(), match v {
            I64Field(x) => I64(x),
            U64Field(x) => U64(x),
            F64Field(x) => F64(x.to_bits()),
            StringField(x) => Text(x.to_string()),
            BooleanField(x) => Boolean(x),
        })).collect(),
        timestamp: l.timestamp,
    })).collect()
}

// ---------------------------------------------------------------- what becomes of a line

/// The value of the first tag with this key.
pub open spec fn tag_value(tags: Seq<TagView>, key: Seq<char>) -> Option<Seq<char>>
    decreases tags.len(),
{
    if tags.len() == 0 {
        None
    } else if tags[0].0 == key {
        Some(tags[0].1)
    } else {
        tag_value(tags.skip(1), key)
    }
}

/// What became of a line.
#[derive(Debug)]
pub enum LineOutcome {
    /// It is none, for this reason.
    Unparseable(String),
    /// It has no tags.
    Untagged,
    /// It has no uid tag.
    NoUid,
    /// It was recorded.
    Recorded,
    /// The counters have no room for it.
    CountersFull,
}

/// The model of a [`LineOutcome`].
pub enum OutcomeView {
    Unparseable(Seq<char>),
    Untagged,
    NoUid,
    Recorded,
    CountersFull,
}

impl View for LineOutcome {
    type V = OutcomeView;

    open spec fn view(&self) -> OutcomeView {
        match self {
            LineOutcome::Unparseable(e) => OutcomeView::Unparseable(e@),
            LineOutcome::Untagged => OutcomeView::Untagged,
            LineOutcome::NoUid => OutcomeView::NoUid,
            LineOutcome::Recorded => OutcomeView::Recorded,
            LineOutcome::CountersFull => OutcomeView::CountersFull,
        }
    }
}

/// The models of the outcomes.
pub open spec fn outcome_views(outcomes: Seq<LineOutcome>) -> Seq<OutcomeView> {
    outcomes.map_values(|o: LineOutcome| o@)
}

impl OutcomeView {
    /// What is said of the line, where anything is.
    pub open spec fn notice(self) -> Option<Seq<char>> {
        match self {
            OutcomeView::Unparseable(e) => Some("Skipping unparseable line: "@ + e),
            OutcomeView::NoUid => Some("Skipping line without uid tag"@),
            _ => None,
        }
    }
}

impl LineOutcome {
    /// What is said of the line, where anything is.
    pub fn notice(&self) -> (r: Option<String>)
        ensures
            cache::text_view(r) == self@.notice(),
    {
        match self {
            LineOutcome::Unparseable(e) => {
                let mut out: String = String::new();
                out.append("Skipping unparseable line: ");
                out.append(e.as_str());
                assert(out@ =~= "Skipping unparseable line: "@ + e@);
                Some(out)
            },
            LineOutcome::NoUid => Some("Skipping line without uid tag".to_owned()),
            _ => None,
        }
    }
}

/// What becomes of a line.
pub open spec fn line_outcome(
    cache: CacheView,
    line: Result<LineView, Seq<char>>,
) -> OutcomeView {
    match line {
        Err(e) => OutcomeView::Unparseable(e),
        Ok(l) => match l.tags {
            None => OutcomeView::Untagged,
            Some(tags) => match tag_value(tags, "uid"@) {
                None => OutcomeView::NoUid,
                Some(uid) => if cache.room(uid, l.fields.len()) && cache.ilp_line_count
                    < usize::MAX {
                    OutcomeView::Recorded
                } else {
                    OutcomeView::CountersFull
                },
            },
        },
    }
}

/// The cache after a line. A line that brings no timestamp has that of its message.
pub open spec fn after_line(
    cache: CacheView,
    line: Result<LineView, Seq<char>>,
    fallback: i64,
) -> CacheView {
    if line_outcome(cache, line) is Recorded {
        let l = line->Ok_0;
        let tags = l.tags->0;
        let after = cache.recorded(
            tag_value(tags, "uid"@)->0,
            tag_value(tags, "Equipment-tag"@),
            l.fields,
            match l.timestamp {
                Some(t) => t,
                None => fallback,
            },
            l.measurement,
        );
        after.with_counts(after.kafka_message_count, after.ilp_line_count + 1)
    } else {
        cache
    }
}

/// The cache after the lines of a message, one behind the other.
pub open spec fn after_lines(
    cache: CacheView,
    lines: Seq<Result<LineView, Seq<char>>>,
    fallback: i64,
) -> CacheView
    decreases lines.len(),
{
    if lines.len() == 0 {
        cache
    } else {
        after_line(after_lines(cache, lines.drop_last(), fallback), lines.last(), fallback)
    }
}

/// What becomes of the lines of a message.
pub open spec fn line_outcomes(
    cache: CacheView,
    lines: Seq<Result<LineView, Seq<char>>>,
    fallback: i64,
) -> Seq<OutcomeView> {
    Seq::new(
        lines.len(),
        |i: int| line_outcome(after_lines(cache, lines.take(i), fallback), lines[i]),
    )
}

/// The value of the first tag with this key.
fn find_tag<'a>(tags: &'a Vec<(String, String)>, key: &str) -> (r: Option<&'a String>)
    ensures
        match r {
            Some(v) => tag_value(tag_views(tags@), key@) == Some(v@),
            None => tag_value(tag_views(tags@), key@) is None,
        },
{
    let key_text: String = key.to_owned();
    let ghost all = tag_views(tags@);
    let mut i: usize = 0;
    assert(all.skip(0) =~= all);
    while i < tags.len()
        invariant
            i <= tags@.len(),
            all == tag_views(tags@),
            key_text@ == key@,
            tag_value(all, key@) == tag_value(all.skip(i as int), key@),
        decreases tags.len() - i,
    {
        assert(all[i as int] == (tags@[i as int].0@, tags@[i as int].1@));
        if tags[i].0 == key_text {
            return Some(&tags[i].1);
        }
        assert(all.skip(i as int).skip(1) =~= all.skip(i + 1));
        i = i + 1;
    }
    None
}

/// Records a line, where it is one and has a uid tag.
pub fn process_line(cache: &mut ValueCache, line: Result<Line, String>, fallback: i64) -> (r:
    LineOutcome)
    requires
        old(cache).wf(),
    ensures
        final(cache).wf(),
        final(cache)@ == after_line(old(cache)@, line_view(line), fallback),
        r@ == line_outcome(old(cache)@, line_view(line)),
{
    match line {
        Err(e) => LineOutcome::Unparseable(e),
        Ok(l) => match l.tags {
            None => LineOutcome::Untagged,
            Some(tags) => match find_tag(&tags, "uid") {
                None => LineOutcome::NoUid,
                Some(uid) => {
                    if cache.totals().ilp_line_count < usize::MAX && cache.has_room(
                        uid.as_str(),
                        l.fields.len(),
                    ) {
                        let equipment_tag: Option<String> = match find_tag(
                            &tags,
                            "Equipment-tag",
                        ) {
                            Some(tag) => Some(tag.clone()),
                            None => None,
                        };
                        let timestamp: i64 = match l.timestamp {
                            Some(t) => t,
                            None => fallback,
                        };
                        cache.add_or_update_fields(
                            uid.as_str(),
                            equipment_tag,
                            &l.fields,
                            timestamp,
                            l.measurement.as_str(),
                        );
                        cache.count_line();
                        LineOutcome::Recorded
                    } else {
                        LineOutcome::CountersFull
                    }
                },
            },
        },
    }
}

/// Records the lines of a message.
pub fn process_lines(cache: &mut ValueCache, lines: Vec<Result<Line, String>>, fallback: i64) -> (r:
    Vec<LineOutcome>)
    requires
        old(cache).wf(),
    ensures
        final(cache).wf(),
        final(cache)@ == after_lines(old(cache)@, line_views(lines@), fallback),
        outcome_views(r@) == line_outcomes(old(cache)@, line_views(lines@), fallback),
{
    let ghost source = lines@;
    let ghost all = line_views(source);
    let ghost before = cache@;
    let n: usize = lines.len();
    let mut outcomes: Vec<LineOutcome> = Vec::new();
    for line in it: lines.into_iter()
        invariant
            it.seq() == source,
            all == line_views(source),
            n == source.len(),
            cache.wf(),
            cache@ == after_lines(before, all.take(it.index() as int), fallback),
            outcomes@.len() == it.index(),
            forall|k: int|
                0 <= k < outcomes@.len() ==> (#[trigger] outcomes@[k])@ == line_outcome(
                    after_lines(before, all.take(k), fallback),
                    all[k],
                ),
    {
        proof {
            fold::lemma_prefix(all, it.index() as int);
            assert(all[it.index() as int] == line_view(line));
        }
        let outcome: LineOutcome = process_line(cache, line, fallback);
        outcomes.push(outcome);
    }
    proof {
        assert(all.take(n as int) =~= all);
        assert(outcome_views(outcomes@) =~= line_outcomes(before, all, fallback));
    }
    outcomes
}

// ---------------------------------------------------------------- messages

/// The timestamp of the lines that bring none: the time in the precision of the cache. There is
/// none in milliseconds, nor where the nanoseconds do not fit.
pub open spec fn fallback_of(precision: Precision, now: int) -> Option<i64> {
    match precision {
        Precision::Second => Some(now as i64),
        Precision::Millisecond => None,
        Precision::Nanosecond => if i64::MIN <= now * 1_000_000_000 <= i64::MAX {
            Some((now * 1_000_000_000) as i64)
        } else {
            None
        },
    }
}

/// The timestamp of the lines that bring none.
pub fn fallback_timestamp(precision: Precision, now: i64) -> (r: Option<i64>)
    ensures
        r == fallback_of(precision, now as int),
{
    match precision {
        Precision::Second => Some(now),
        Precision::Millisecond => None,
        Precision::Nanosecond => now.checked_mul(1_000_000_000),
    }
}

/// Why a message was not dealt with.
#[derive(Debug, Clone, Copy, PartialEq, Eq, Structural)]
pub enum MessageError {
    /// The counter of messages has no room.
    CounterFull,
    /// There is no timestamp for lines that bring none.
    NoTimestamp,
}

/// What a message makes of the cache, and what becomes of its lines.
pub open spec fn message_dealt_with(
    before: CacheView,
    after: CacheView,
    lines: Seq<Result<LineView, Seq<char>>>,
    now: int,
    answer: Result<Vec<LineOutcome>, MessageError>,
) -> bool {
    if before.kafka_message_count >= usize::MAX {
        answer == Err::<Vec<LineOutcome>, _>(MessageError::CounterFull) && after == before
    } else {
        let counted = before.with_counts(before.kafka_message_count + 1, before.ilp_line_count);
        match fallback_of(before.precision, now) {
            None => answer == Err::<Vec<LineOutcome>, _>(MessageError::NoTimestamp) && after
                == counted,
            Some(fallback) => answer is Ok && outcome_views(answer->Ok_0@) == line_outcomes(
                counted,
                lines,
                fallback,
            ) && after == after_lines(counted, lines, fallback),
        }
    }
}

/// The payload of a message that has none, or none that is text, is the empty text.
pub fn payload_text<'a>(payload: Option<&'a str>) -> (r: &'a str)
    ensures
        r@ == (match payload {
            Some(p) => p@,
            None => ""@,
        }),
{
    match payload {
        Some(p) => p,
        None => "",
    }
}

/// Counts a message that came at `now` and records its lines.
pub fn process_parsed(cache: &mut ValueCache, lines: Vec<Result<Line, String>>, now: i64) -> (r:
    Result<Vec<LineOutcome>, MessageError>)
    requires
        old(cache).wf(),
    ensures
        final(cache).wf(),
        message_dealt_with(old(cache)@, final(cache)@, line_views(lines@), now as int, r),
{
    if cache.totals().kafka_message_count == usize::MAX {
        return Err(MessageError::CounterFull);
    }
    cache.count_message();
    match fallback_timestamp(cache.precision(), now) {
        None => Err(MessageError::NoTimestamp),
        Some(fallback) => Ok(process_lines(cache, lines, fallback)),
    }
}

/// Counts a message that came at `now` and records the lines of its payload.
pub fn process_message_at(cache: &mut ValueCache, payload: &str, now: i64) -> (r: Result<
    Vec<LineOutcome>,
    MessageError,
>)
    requires
        old(cache).wf(),
    ensures
        final(cache).wf(),
        message_dealt_with(old(cache)@, final(cache)@, parsed_lines(payload@), now as int, r),
{
    process_parsed(cache, parse_lines(payload), now)
}

/// Counts a message that comes now and records the lines of its payload.
pub fn process_message(cache: &mut ValueCache, payload: &str) -> (r: Result<
    Vec<LineOutcome>,
    MessageError,
>)
    requires
        old(cache).wf(),
    ensures
        final(cache).wf(),
        exists|now: i64| #[trigger]
            message_dealt_with(
                old(cache)@,
                final(cache)@,
                parsed_lines(payload@),
                now as int,
                r,
            ),
{
    process_message_at(cache, payload, curtime())
}

} // verus!
