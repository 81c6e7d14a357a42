//! What every request is answered.

use vstd::prelude::*;
use vstd::string::*;

use crate::activity::Ages;
use crate::cache;
use crate::cache::{Totals, ValueCache};
use crate::fold;
use crate::model::CacheView;
use crate::ranking;
use crate::ranking::EntryView;
use crate::stats_utils::curtime;
use crate::text;
use crate::value;
use crate::value::{Piece, PieceView};

verus! {

// ---------------------------------------------------------------- replies

/// The status of a reply.
#[derive(Debug, Clone, Copy, PartialEq, Eq, Structural)]
pub enum Status {
    Success,
    UnprocessableEntity,
    InternalServerError,
}

/// A reply to a request.
#[derive(Debug)]
pub struct Reply {
    pub status: Status,
    pub body: Vec<Piece>,
}

/// The model of a [`Reply`].
pub struct ReplyView {
    pub status: Status,
    pub body: Seq<PieceView>,
}

impl View for Reply {
    type V = ReplyView;

    open spec fn view(&self) -> ReplyView {
        ReplyView { status: self.status, body: value::pieces(self.body@) }
    }
}

impl ReplyView {
    /// A reply that is one text.
    pub open spec fn text(status: Status, t: Seq<char>) -> ReplyView {
        ReplyView { status, body: seq![PieceView::Text(t)] }
    }

    /// A request that succeeds.
    pub open spec fn ok(t: Seq<char>) -> ReplyView {
        ReplyView::text(Status::Success, t)
    }

    /// The cache could not be locked.
    pub open spec fn lock_failed() -> ReplyView {
        ReplyView::text(Status::InternalServerError, "Couldn't lock mutex"@)
    }
}

impl Reply {
    fn text(status: Status, t: String) -> (r: Reply)
        ensures
            r@ == ReplyView::text(status, t@),
    {
        let mut body: Vec<Piece> = Vec::new();
        body.push(Piece::Text(t));
        assert(value::pieces(body@) =~= seq![PieceView::Text(t@)]);
        Reply { status, body }
    }

    fn ok(t: String) -> (r: Reply)
        ensures
            r@ == ReplyView::ok(t@),
    {
        Reply::text(Status::Success, t)
    }

    /// The reply where the cache could not be locked.
    pub fn lock_failed() -> (r: Reply)
        ensures
            r@ == ReplyView::lock_failed(),
    {
        Reply::text(Status::InternalServerError, "Couldn't lock mutex".to_owned())
    }
}

// ---------------------------------------------------------------- what the replies say

impl CacheView {
    /// The statistics line, tagged with the host where one is given.
    pub open spec fn stats_line(self, host: Option<Seq<char>>, now: int) -> Seq<char> {
        let added = self.added(None);
        let ages = self.ages(now);
        let host_tag = match host {
            Some(h) => ",host="@ + h,
            None => Seq::empty(),
        };
        self.output_measurement + host_tag + " timeperiod_length_seconds="@ + text::decimal(
            self.last_value_ts - self.first_value_ts,
        ) + ",uid_all_count="@ + text::decimal(self.uids.len() as int) + ",uid_inactive_count="@
            + text::decimal(self.uids_silent(added, now) as int)
            + ",uid_plus_field_combination_count="@ + text::decimal(self.field_total())
            + ",uid_field_inactive_count="@ + text::decimal(self.fields_inactive(added, now))
            + ",uid_age_min="@ + text::decimal(ages.min) + ",uid_age_max="@ + text::decimal(
            ages.max,
        ) + ",uid_age_mean="@ + text::decimal(ages.average) + ",kafka_message_count="@
            + text::decimal(self.kafka_message_count as int) + ",ilp_line_count="@
            + text::decimal(self.ilp_line_count as int) + ",field_count="@ + text::decimal(
            self.fields_seen_count as int,
        ) + ",changed_fields_count="@ + text::decimal(self.fields_changed_count as int)
            + ",unique_field_name_count="@ + text::decimal(
            self.field_names().to_set().len() as int,
        ) + ",fields_sent_initial_count="@ + text::decimal(self.fields_sent_initial_count as int)
            + ",fields_sent_suppressed_count="@ + text::decimal(
            self.fields_sent_suppressed_count as int,
        ) + ",fields_sent_changed_count="@ + text::decimal(self.fields_sent_changed_count as int)
            + ",fields_sent_timeout="@ + text::decimal(self.fields_sent_timeout_count as int)
            + "\n"@
    }

    /// The statistics, once a value was seen.
    pub open spec fn stats(self, host: Option<Seq<char>>, now: int) -> Seq<char> {
        if self.last_value_ts < self.first_value_ts {
            "Not enough data collected"@
        } else {
            self.stats_line(host, now)
        }
    }

    /// The counts of field names.
    pub open spec fn name_counts(self) -> Seq<char> {
        "total_count="@ + text::decimal(self.field_names().len() as int) + ",unique_count="@
            + text::decimal(self.field_names().to_set().len() as int)
    }

    /// The fields that changed least.
    pub open spec fn least_changed_text(self, count: usize) -> Seq<char> {
        let entries = self.entries();
        let shown = if count < entries.len() {
            count as int
        } else {
            entries.len() as int
        };
        fold::concat(ranking::ranking(entries).take(shown), entry_line())
    }

    /// The count of changed fields.
    pub open spec fn changed_text(self, seconds: i64, now: int) -> Seq<char> {
        "changed_fields_last_"@ + text::decimal(seconds as int) + "_seconds_count="@
            + text::decimal(self.fields_changed(seconds as int, now))
    }
}

/// The lines of the fields that changed least.
pub open spec fn entry_line() -> spec_fn(EntryView) -> Seq<char> {
    |e: EntryView| e.0 + ": "@ + text::decimal(e.1 as int) + "\n"@
}

/// What a request for the count of changed fields is answered.
pub open spec fn changed_reply(
    seconds: Seq<char>,
    cache: Option<CacheView>,
    now: int,
) -> ReplyView {
    match text::i64_of(seconds) {
        None => ReplyView::text(
            Status::UnprocessableEntity,
            "Couldn't parse "@ + seconds + " into i64"@,
        ),
        Some(secs) => match cache {
            Some(c) => ReplyView::ok(c.changed_text(secs, now)),
            None => ReplyView::lock_failed(),
        },
    }
}

/// What a request for the fields that changed least is answered.
pub open spec fn least_changed_reply(count: Seq<char>, cache: Option<CacheView>) -> ReplyView {
    match text::usize_of(count) {
        None => ReplyView::text(
            Status::UnprocessableEntity,
            "Couldn't parse "@ + count + " into usize"@,
        ),
        Some(n) => match cache {
            Some(c) => ReplyView::ok(c.least_changed_text(n)),
            None => ReplyView::lock_failed(),
        },
    }
}

/// What a request to remove one uid is told, by the answer of the cache.
pub open spec fn removal_reply(uid: Seq<char>, answer: Result<(), String>) -> ReplyView {
    match answer {
        Ok(_) => ReplyView::ok("Removed inactive UID: "@ + uid),
        Err(message) => ReplyView::ok(
            "UID was not inactive and was not removed: "@ + message@,
        ),
    }
}

/// The model of a cache that could be locked.
pub open spec fn cache_view(cache: Option<&ValueCache>) -> Option<CacheView> {
    match cache {
        Some(c) => Some(c@),
        None => None,
    }
}

/// The model of an optional host.
pub open spec fn host_view(host: Option<&str>) -> Option<Seq<char>> {
    match host {
        Some(h) => Some(h@),
        None => None,
    }
}

// ---------------------------------------------------------------- the requests

/// All uids with the names of their fields.
pub fn root(cache: Option<&ValueCache>) -> (r: Reply)
    ensures
        r@ == (match cache {
            Some(c) => ReplyView::ok(c@.summary()),
            None => ReplyView::lock_failed(),
        }),
{
    match cache {
        Some(c) => Reply::ok(c.uids_and_fields_to_string()),
        None => Reply::lock_failed(),
    }
}

/// The number of uids seen in the minute before `now`.
pub fn uid_count_last_minute_at(cache: Option<&ValueCache>, now: i64) -> (r: Reply)
    ensures
        r@ == (match cache {
            Some(c) => ReplyView::ok(text::decimal(c@.uids_seen(60, now as int) as int)),
            None => ReplyView::lock_failed(),
        }),
{
    match cache {
        Some(c) => Reply::ok(text::decimal_text(c.uid_count_last_seconds_at(60, now) as i128)),
        None => Reply::lock_failed(),
    }
}

/// The number of uids seen in the last minute by the clock.
pub fn uid_count_last_minute(cache: Option<&ValueCache>) -> (r: Reply)
    ensures
        match cache {
            Some(c) => exists|now: i64|
                r@ == ReplyView::ok(text::decimal(#[trigger] c@.uids_seen(60, now as int) as int)),
            None => r@ == ReplyView::lock_failed(),
        },
{
    uid_count_last_minute_at(cache, curtime())
}

/// The number of fields seen in the minute before `now`.
pub fn field_count_last_minute_at(cache: Option<&ValueCache>, now: i64) -> (r: Reply)
    requires
        cache matches Some(c) ==> c.wf(),
    ensures
        r@ == (match cache {
            Some(c) => ReplyView::ok(text::decimal(c@.fields_seen(60, now as int))),
            None => ReplyView::lock_failed(),
        }),
{
    match cache {
        Some(c) => Reply::ok(text::decimal_text(c.field_count_last_seconds_at(60, now) as i128)),
        None => Reply::lock_failed(),
    }
}

/// The number of fields seen in the last minute by the clock.
pub fn field_count_last_minute(cache: Option<&ValueCache>) -> (r: Reply)
    requires
        cache matches Some(c) ==> c.wf(),
    ensures
        match cache {
            Some(c) => exists|now: i64|
                r@ == ReplyView::ok(text::decimal(#[trigger] c@.fields_seen(60, now as int))),
            None => r@ == ReplyView::lock_failed(),
        },
{
    field_count_last_minute_at(cache, curtime())
}

/// All uids with all their fields.
pub fn everything(cache: Option<&ValueCache>) -> (r: Reply)
    ensures
        r@ == (match cache {
            Some(c) => ReplyView { status: Status::Success, body: c@.everything() },
            None => ReplyView::lock_failed(),
        }),
{
    match cache {
        Some(c) => Reply { status: Status::Success, body: c.everything_to_string() },
        None => Reply::lock_failed(),
    }
}

/// The fields of one uid.
pub fn uidinfo(uid: &str, cache: Option<&ValueCache>) -> (r: Reply)
    requires
        cache matches Some(c) ==> c.wf(),
    ensures
        r@ == (match cache {
            Some(c) => ReplyView { status: Status::Success, body: c@.uid_info(uid@) },
            None => ReplyView::lock_failed(),
        }),
{
    match cache {
        Some(c) => Reply { status: Status::Success, body: c.get_uid_info(uid) },
        None => Reply::lock_failed(),
    }
}

/// One field of one uid.
pub fn uidfieldinfo(
    uid: &str,
    measurement: &str,
    field_name: &str,
    cache: Option<&ValueCache>,
) -> (r: Reply)
    requires
        cache matches Some(c) ==> c.wf(),
    ensures
        r@ == (match cache {
            Some(c) => ReplyView {
                status: Status::Success,
                body: c@.uid_field_info(uid@, measurement@, field_name@),
            },
            None => ReplyView::lock_failed(),
        }),
{
    match cache {
        Some(c) => Reply {
            status: Status::Success,
            body: c.get_uid_field_info(uid, measurement, field_name),
        },
        None => Reply::lock_failed(),
    }
}

/// Appends `label` and a number.
fn push_entry(out: &mut String, label: &str, number: i128)
    ensures
        final(out)@ == old(out)@ + label@ + text::decimal(number as int),
{
    out.append(label);
    text::push_decimal(out, number);
}

fn stats_line_at(c: &ValueCache, host: Option<&str>, now: i64) -> (r: String)
    requires
        c.wf(),
    ensures
        r@ == c@.stats_line(host_view(host), now as int),
{
    let ages: Ages = c.get_uid_age_stats_at(now);
    let t: Totals = c.totals();
    let mut out: String = String::new();
    out.append(c.output_measurement());
    assert(out@ =~= c@.output_measurement);
    match host {
        Some(h) => {
            out.append(",host=");
            out.append(h);
            assert(out@ =~= c@.output_measurement + (",host="@ + h@));
        },
        None => {
            assert(out@ =~= c@.output_measurement + Seq::<char>::empty());
        },
    }
    push_entry(
        &mut out,
        " timeperiod_length_seconds=",
        t.last_value_ts as i128 - t.first_value_ts as i128,
    );
    push_entry(&mut out, ",uid_all_count=", c.total_uid_count() as i128);
    push_entry(&mut out, ",uid_inactive_count=", c.inactive_uid_count_at(None, now) as i128);
    push_entry(&mut out, ",uid_plus_field_combination_count=", c.total_field_count() as i128);
    push_entry(
        &mut out,
        ",uid_field_inactive_count=",
        c.inactive_field_count_at(None, now) as i128,
    );
    push_entry(&mut out, ",uid_age_min=", ages.min);
    push_entry(&mut out, ",uid_age_max=", ages.max);
    push_entry(&mut out, ",uid_age_mean=", ages.average);
    push_entry(&mut out, ",kafka_message_count=", t.kafka_message_count as i128);
    push_entry(&mut out, ",ilp_line_count=", t.ilp_line_count as i128);
    push_entry(&mut out, ",field_count=", t.fields_seen_count as i128);
    push_entry(&mut out, ",changed_fields_count=", t.fields_changed_count as i128);
    push_entry(
        &mut out,
        ",unique_field_name_count=",
        c.unique_field_name_count().0 as i128,
    );
    push_entry(&mut out, ",fields_sent_initial_count=", t.fields_sent_initial_count as i128);
    push_entry(
        &mut out,
        ",fields_sent_suppressed_count=",
        t.fields_sent_suppressed_count as i128,
    );
    push_entry(&mut out, ",fields_sent_changed_count=", t.fields_sent_changed_count as i128);
    push_entry(&mut out, ",fields_sent_timeout=", t.fields_sent_timeout_count as i128);
    out.append("\n");
    out
}

/// The statistics at `now`, tagged with the host where one is given.
pub fn stats_at(cache: Option<&ValueCache>, host: Option<&str>, now: i64) -> (r: Reply)
    requires
        cache matches Some(c) ==> c.wf(),
    ensures
        r@ == (match cache {
            Some(c) => ReplyView::ok(c@.stats(host_view(host), now as int)),
            None => ReplyView::lock_failed(),
        }),
{
    match cache {
        Some(c) => {
            let t: Totals = c.totals();
            if t.last_value_ts < t.first_value_ts {
                Reply::ok("Not enough data collected".to_owned())
            } else {
                Reply::ok(stats_line_at(c, host, now))
            }
        },
        None => Reply::lock_failed(),
    }
}

/// The statistics by the clock, tagged with the host where one is given.
pub fn stats(cache: Option<&ValueCache>, host: Option<&str>) -> (r: Reply)
    requires
        cache matches Some(c) ==> c.wf(),
    ensures
        match cache {
            Some(c) => exists|now: i64|
                r@ == ReplyView::ok(#[trigger] c@.stats(host_view(host), now as int)),
            None => r@ == ReplyView::lock_failed(),
        },
{
    stats_at(cache, host, curtime())
}

/// All that is inactive at `now`.
pub fn list_inactive_at(cache: Option<&ValueCache>, now: i64) -> (r: Reply)
    requires
        cache matches Some(c) ==> c.wf(),
    ensures
        r@ == (match cache {
            Some(c) => ReplyView::ok(c@.inactive_text(c@.added(None), now as int)),
            None => ReplyView::lock_failed(),
        }),
{
    match cache {
        Some(c) => Reply::ok(c.list_inactive_at(None, now)),
        None => Reply::lock_failed(),
    }
}

/// All that is inactive by the clock.
pub fn list_inactive(cache: Option<&ValueCache>) -> (r: Reply)
    requires
        cache matches Some(c) ==> c.wf(),
    ensures
        match cache {
            Some(c) => exists|now: i64|
                r@ == ReplyView::ok(#[trigger] c@.inactive_text(c@.added(None), now as int)),
            None => r@ == ReplyView::lock_failed(),
        },
{
    list_inactive_at(cache, curtime())
}

/// Removes all that is inactive at `now`.
pub fn remove_inactive_at(cache: Option<&mut ValueCache>, now: i64) -> (r: Reply)
    requires
        cache matches Some(c) ==> c.wf(),
    ensures
        match cache {
            Some(c) => {
                &&& final(c).wf()
                &&& final(c)@ == c@.pruned(c@.added(None), now as int)
                &&& r@ == ReplyView::ok(
                    cache::removal_text(c@, c@.added(None), now as int),
                )
            },
            None => r@ == ReplyView::lock_failed(),
        },
{
    match cache {
        Some(c) => Reply::ok(c.remove_inactive_uids_and_fields_at(None, now)),
        None => Reply::lock_failed(),
    }
}

/// Removes all that is inactive by the clock.
pub fn remove_inactive(cache: Option<&mut ValueCache>) -> (r: Reply)
    requires
        cache matches Some(c) ==> c.wf(),
    ensures
        match cache {
            Some(c) => {
                &&& final(c).wf()
                &&& exists|now: i64|
                    final(c)@ == #[trigger] c@.pruned(c@.added(None), now as int) && r@
                        == ReplyView::ok(
                        cache::removal_text(c@, c@.added(None), now as int),
                    )
            },
            None => r@ == ReplyView::lock_failed(),
        },
{
    remove_inactive_at(cache, curtime())
}

fn removal_told(uid: &str, answer: &Result<(), String>) -> (r: Reply)
    ensures
        r@ == removal_reply(uid@, *answer),
{
    let mut out: String = String::new();
    match answer {
        Ok(_) => {
            out.append("Removed inactive UID: ");
            out.append(uid);
            assert(out@ =~= "Removed inactive UID: "@ + uid@);
        },
        Err(message) => {
            out.append("UID was not inactive and was not removed: ");
            out.append(message.as_str());
            assert(out@ =~= "UID was not inactive and was not removed: "@ + message@);
        },
    }
    Reply::ok(out)
}

/// Removes the uid of this name, if at `now` it is inactive.
pub fn remove_inactive_uid_at(uid: &str, cache: Option<&mut ValueCache>, now: i64) -> (r: Reply)
    requires
        cache matches Some(c) ==> c.wf(),
    ensures
        match cache {
            Some(c) => {
                &&& final(c).wf()
                &&& exists|answer: Result<(), String>|
                    #[trigger] cache::removal_answer(
                        c@,
                        final(c)@,
                        uid@,
                        c@.added(None),
                        now as int,
                        answer,
                    ) && r@ == removal_reply(uid@, answer)
            },
            None => r@ == ReplyView::lock_failed(),
        },
{
    match cache {
        Some(c) => {
            let answer: Result<(), String> = c.remove_uid_if_inactive_at(uid, None, now);
            removal_told(uid, &answer)
        },
        None => Reply::lock_failed(),
    }
}

/// Removes the uid of this name, if it is inactive by the clock.
pub fn remove_inactive_uid(uid: &str, cache: Option<&mut ValueCache>) -> (r: Reply)
    requires
        cache matches Some(c) ==> c.wf(),
    ensures
        match cache {
            Some(c) => {
                &&& final(c).wf()
                &&& exists|now: i64, answer: Result<(), String>|
                    #[trigger] cache::removal_answer(
                        c@,
                        final(c)@,
                        uid@,
                        c@.added(None),
                        now as int,
                        answer,
                    ) && r@ == removal_reply(uid@, answer)
            },
            None => r@ == ReplyView::lock_failed(),
        },
{
    remove_inactive_uid_at(uid, cache, curtime())
}

/// The counts of field names, with and without repetition.
pub fn unique_field_names(cache: Option<&ValueCache>) -> (r: Reply)
    requires
        cache matches Some(c) ==> c.wf(),
    ensures
        r@ == (match cache {
            Some(c) => ReplyView::ok(c@.name_counts()),
            None => ReplyView::lock_failed(),
        }),
{
    match cache {
        Some(c) => {
            let counts: (usize, usize) = c.unique_field_name_count();
            let mut out: String = String::new();
            push_entry(&mut out, "total_count=", counts.1 as i128);
            push_entry(&mut out, ",unique_count=", counts.0 as i128);
            assert(out@ =~= c@.name_counts());
            Reply::ok(out)
        },
        None => Reply::lock_failed(),
    }
}

fn unparsed(t: &str, kind: &str) -> (r: Reply)
    ensures
        r@ == ReplyView::text(
            Status::UnprocessableEntity,
            "Couldn't parse "@ + t@ + " into "@ + kind@,
        ),
{
    let mut out: String = String::new();
    out.append("Couldn't parse ");
    out.append(t);
    out.append(" into ");
    out.append(kind);
    assert(out@ =~= "Couldn't parse "@ + t@ + " into "@ + kind@);
    Reply::text(Status::UnprocessableEntity, out)
}

/// The number of fields that changed in the `seconds` seconds before `now`.
pub fn count_changed_fields_last_seconds_at(
    seconds: &str,
    cache: Option<&ValueCache>,
    now: i64,
) -> (r: Reply)
    requires
        cache matches Some(c) ==> c.wf(),
    ensures
        r@ == changed_reply(seconds@, cache_view(cache), now as int),
{
    match text::parse_i64(seconds) {
        None => {
            proof {
                reveal_strlit(" into i64");
                reveal_strlit(" into ");
                reveal_strlit("i64");
                assert("Couldn't parse "@ + seconds@ + " into "@ + "i64"@ =~= "Couldn't parse "@
                    + seconds@ + " into i64"@);
            }
            unparsed(seconds, "i64")
        },
        Some(secs) => match cache {
            Some(c) => {
                let count: usize = c.changed_fields_last_seconds_at(secs, now);
                let mut out: String = String::new();
                push_entry(&mut out, "changed_fields_last_", secs as i128);
                push_entry(&mut out, "_seconds_count=", count as i128);
                assert(out@ =~= c@.changed_text(secs, now as int));
                Reply::ok(out)
            },
            None => Reply::lock_failed(),
        },
    }
}

/// The number of fields that changed in the last `seconds` seconds by the clock.
pub fn count_changed_fields_last_seconds(seconds: &str, cache: Option<&ValueCache>) -> (r: Reply)
    requires
        cache matches Some(c) ==> c.wf(),
    ensures
        exists|now: i64| r@ == #[trigger] changed_reply(seconds@, cache_view(cache), now as int),
{
    count_changed_fields_last_seconds_at(seconds, cache, curtime())
}

/// The `count` fields that changed least.
pub fn least_changed_fields(count: &str, cache: Option<&ValueCache>) -> (r: Reply)
    ensures
        r@ == least_changed_reply(count@, cache_view(cache)),
{
    match text::parse_usize(count) {
        None => {
            proof {
                reveal_strlit(" into usize");
                reveal_strlit(" into ");
                reveal_strlit("usize");
                assert("Couldn't parse "@ + count@ + " into "@ + "usize"@ =~= "Couldn't parse "@
                    + count@ + " into usize"@);
            }
            unparsed(count, "usize")
        },
        Some(n) => match cache {
            Some(c) => {
                let least: Vec<(String, usize)> = c.least_changed(n);
                let ghost entries = ranking::entry_views(least@);
                let ghost f = entry_line();
                let mut out: String = String::new();
                let mut i: usize = 0;
                while i < least.len()
                    invariant
                        i <= least@.len(),
                        entries == ranking::entry_views(least@),
                        f == entry_line(),
                        out@ == fold::concat(entries.take(i as int), f),
                    decreases least.len() - i,
                {
                    let ghost before = out@;
                    proof {
                        fold::lemma_prefix(entries, i as int);
                        assert(entries[i as int] == (
                            least@[i as int].0@,
                            least@[i as int].1 as nat,
                        ));
                    }
                    out.append(least[i].0.as_str());
                    push_entry(&mut out, ": ", least[i].1 as i128);
                    out.append("\n");
                    assert(out@ =~= before + f(entries[i as int]));
                    i = i + 1;
                }
                assert(entries.take(i as int) =~= entries);
                Reply::ok(out)
            },
            None => Reply::lock_failed(),
        },
    }
}

} // verus!
