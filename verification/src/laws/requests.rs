//! What the requests are answered.

use vstd::prelude::*;

use crate::api;
use crate::api::{Reply, Status};
use crate::cache;
use crate::cache::ValueCache;
use crate::fold;
use crate::laws::counting;
use crate::laws::recording;
use crate::laws::silence;
use crate::laws::telling;
use crate::laws::values;
use crate::model::{CacheView, FieldView};
use crate::ranking;
use crate::ranking::EntryView;
use crate::text;
use crate::value;
use crate::value::{Piece, PieceView, ValueView};

verus! {

/// The reply is this text.
pub open spec fn says(r: Reply, status: Status, t: Seq<char>) -> bool {
    r.status == status && r.body@.len() == 1 && r.body@[0] is Text && r.body@[0]->Text_0@ == t
}

/// The reply is that the cache could not be locked.
pub open spec fn locked_out(r: Reply) -> bool {
    says(r, Status::InternalServerError, "Couldn't lock mutex"@)
}

/// What the cache holds, where it could be locked.
pub open spec fn content(cache: Option<&ValueCache>) -> Option<CacheView> {
    if cache is Some {
        Some(cache->0@)
    } else {
        None
    }
}

/// The name of the host, where one is given.
pub open spec fn name_of(host: Option<&str>) -> Option<Seq<char>> {
    if host is Some {
        Some(host->0@)
    } else {
        None
    }
}

proof fn lemma_says(r: Reply, status: Status, t: Seq<char>)
    requires
        r@ == (api::ReplyView { status, body: seq![PieceView::Text(t)] }),
    ensures
        says(r, status, t),
{
    telling::lemma_made_of(r.body@);
    let p = value::pieces(r.body@);
    assert(p.len() == 1);
    match r.body@[0] {
        Piece::Text(x) => {
            assert(p[0] == PieceView::Text(x@));
        },
        _ => {},
    }
}

// ---------------------------------------------------------------- without a cache

/// Where the cache could not be locked, every request is answered so, and fails.
pub proof fn law_locked_out(
    now: i64,
    uid: &str,
    measurement: &str,
    name: &str,
    host: Option<&str>,
    a: Reply,
    b: Reply,
    c: Reply,
    d: Reply,
    e: Reply,
    f: Reply,
    g: Reply,
    h: Reply,
    i: Reply,
    j: Reply,
    k: Reply,
)
    requires
        call_ensures(api::root, (None::<&ValueCache>,), a),
        call_ensures(api::uid_count_last_minute_at, (None::<&ValueCache>, now), b),
        call_ensures(api::field_count_last_minute_at, (None::<&ValueCache>, now), c),
        call_ensures(api::everything, (None::<&ValueCache>,), d),
        call_ensures(api::uidinfo, (uid, None::<&ValueCache>), e),
        call_ensures(api::uidfieldinfo, (uid, measurement, name, None::<&ValueCache>), f),
        call_ensures(api::stats_at, (None::<&ValueCache>, host, now), g),
        call_ensures(api::list_inactive_at, (None::<&ValueCache>, now), h),
        call_ensures(api::unique_field_names, (None::<&ValueCache>,), i),
        call_ensures(api::remove_inactive_at, (None::<&mut ValueCache>, now), j),
        call_ensures(api::remove_inactive_uid_at, (uid, None::<&mut ValueCache>, now), k),
    ensures
        locked_out(a),
        locked_out(b),
        locked_out(c),
        locked_out(d),
        locked_out(e),
        locked_out(f),
        locked_out(g),
        locked_out(h),
        locked_out(i),
        locked_out(j),
        locked_out(k),
{
    let t = "Couldn't lock mutex"@;
    lemma_says(a, Status::InternalServerError, t);
    lemma_says(b, Status::InternalServerError, t);
    lemma_says(c, Status::InternalServerError, t);
    lemma_says(d, Status::InternalServerError, t);
    lemma_says(e, Status::InternalServerError, t);
    lemma_says(f, Status::InternalServerError, t);
    lemma_says(g, Status::InternalServerError, t);
    lemma_says(h, Status::InternalServerError, t);
    lemma_says(i, Status::InternalServerError, t);
    lemma_says(j, Status::InternalServerError, t);
    lemma_says(k, Status::InternalServerError, t);
}

/// Where the cache could not be locked, every request by the clock is answered so, and fails.
pub proof fn law_locked_out_now(
    uid: &str,
    host: Option<&str>,
    a: Reply,
    b: Reply,
    c: Reply,
    d: Reply,
    e: Reply,
    f: Reply,
    g: Reply,
)
    requires
        call_ensures(api::uid_count_last_minute, (None::<&ValueCache>,), a),
        call_ensures(api::field_count_last_minute, (None::<&ValueCache>,), b),
        call_ensures(api::stats, (None::<&ValueCache>, host), c),
        call_ensures(api::list_inactive, (None::<&ValueCache>,), d),
        call_ensures(Reply::lock_failed, (), e),
        call_ensures(api::remove_inactive, (None::<&mut ValueCache>,), f),
        call_ensures(api::remove_inactive_uid, (uid, None::<&mut ValueCache>), g),
    ensures
        locked_out(a),
        locked_out(b),
        locked_out(c),
        locked_out(d),
        locked_out(e),
        locked_out(f),
        locked_out(g),
{
    let t = "Couldn't lock mutex"@;
    lemma_says(a, Status::InternalServerError, t);
    lemma_says(b, Status::InternalServerError, t);
    lemma_says(c, Status::InternalServerError, t);
    lemma_says(d, Status::InternalServerError, t);
    lemma_says(e, Status::InternalServerError, t);
    lemma_says(f, Status::InternalServerError, t);
    lemma_says(g, Status::InternalServerError, t);
}

// ---------------------------------------------------------------- reports

/// The root is answered with the summary.
pub proof fn law_root(c: &ValueCache, r: Reply)
    requires
        call_ensures(api::root, (Some(c),), r),
    ensures
        says(r, Status::Success, telling::summary_of(c@)),
{
    telling::lemma_summary(c@);
    lemma_says(r, Status::Success, c@.summary());
}

/// Requests for reports succeed and are answered with them.
pub proof fn law_reports(
    c: &ValueCache,
    uid: &str,
    measurement: &str,
    name: &str,
    a: Reply,
    b: Reply,
    d: Reply,
)
    requires
        c.wf(),
        call_ensures(api::everything, (Some(c),), a),
        call_ensures(api::uidinfo, (uid, Some(c)), b),
        call_ensures(api::uidfieldinfo, (uid, measurement, name, Some(c)), d),
    ensures
        a.status is Success,
        telling::made_of(a.body@, telling::everything_of(c@)),
        b.status is Success,
        telling::uid_report(c@, uid@, b.body@),
        d.status is Success,
        telling::field_report(c@, uid@, measurement@, name@, d.body@),
{
    c.lemma_valid();
    telling::lemma_everything(c@);
    telling::lemma_made_of(a.body@);
    assert(a@.body == value::pieces(a.body@));
    telling::lemma_uid_report(c@, uid@, b.body@);
    telling::lemma_field_report(c@, uid@, measurement@, name@, d.body@);
}

// ---------------------------------------------------------------- counts

/// The counts of the last minute are those of the uids and fields seen in the sixty seconds before.
pub proof fn law_last_minute(c: &ValueCache, now: i64, a: Reply, b: Reply)
    requires
        c.wf(),
        call_ensures(api::uid_count_last_minute_at, (Some(c), now), a),
        call_ensures(api::field_count_last_minute_at, (Some(c), now), b),
    ensures
        says(
            a,
            Status::Success,
            text::decimal(counting::uids_since(c@.uids, now - 60).len() as int),
        ),
        says(
            b,
            Status::Success,
            text::decimal(counting::fields_since(c@.uids, now - 60).len() as int),
        ),
{
    c.lemma_valid();
    counting::lemma_uids_seen(c@, 60, now as int);
    counting::lemma_fields_seen(c@, 60, now as int);
    lemma_says(a, Status::Success, text::decimal(c@.uids_seen(60, now as int) as int));
    lemma_says(b, Status::Success, text::decimal(c@.fields_seen(60, now as int)));
}

/// By the clock too, the counts of the last minute are those of the sixty seconds before.
pub proof fn law_last_minute_now(c: &ValueCache, a: Reply, b: Reply)
    requires
        c.wf(),
        call_ensures(api::uid_count_last_minute, (Some(c),), a),
        call_ensures(api::field_count_last_minute, (Some(c),), b),
    ensures
        exists|now: i64|
            says(
                a,
                Status::Success,
                text::decimal((#[trigger] counting::uids_since(c@.uids, now - 60)).len() as int),
            ),
        exists|now: i64|
            says(
                b,
                Status::Success,
                text::decimal((#[trigger] counting::fields_since(c@.uids, now - 60)).len() as int),
            ),
{
    c.lemma_valid();
    let x = choose|now: i64|
        a@ == api::ReplyView::ok(text::decimal(#[trigger] c@.uids_seen(60, now as int) as int));
    counting::lemma_uids_seen(c@, 60, x as int);
    lemma_says(a, Status::Success, text::decimal(c@.uids_seen(60, x as int) as int));
    assert(says(
        a,
        Status::Success,
        text::decimal(counting::uids_since(c@.uids, x - 60).len() as int),
    ));
    let y = choose|now: i64|
        b@ == api::ReplyView::ok(text::decimal(#[trigger] c@.fields_seen(60, now as int)));
    counting::lemma_fields_seen(c@, 60, y as int);
    lemma_says(b, Status::Success, text::decimal(c@.fields_seen(60, y as int)));
    assert(says(
        b,
        Status::Success,
        text::decimal(counting::fields_since(c@.uids, y - 60).len() as int),
    ));
}

/// The counts of names are of those that all fields bear, and of the different ones.
pub proof fn law_unique_field_names(c: &ValueCache, r: Reply)
    requires
        c.wf(),
        call_ensures(api::unique_field_names, (Some(c),), r),
    ensures
        says(
            r,
            Status::Success,
            "total_count="@ + text::decimal(counting::all_fields(c@.uids).len() as int)
                + ",unique_count="@ + text::decimal(counting::names_in(c@.uids).len() as int),
        ),
{
    counting::lemma_names(c@);
    lemma_says(r, Status::Success, c@.name_counts());
}

/// A request for the number of changed fields is refused where the seconds are no number, and
/// answered with the fields whose last change is at most so many seconds old.
pub open spec fn changed_answer(
    seconds: Seq<char>,
    cache: Option<CacheView>,
    now: int,
    r: Reply,
) -> bool {
    match text::i64_of(seconds) {
        None => says(
            r,
            Status::UnprocessableEntity,
            "Couldn't parse "@ + seconds + " into i64"@,
        ),
        Some(s) => if cache is Some {
            says(
                r,
                Status::Success,
                "changed_fields_last_"@ + text::decimal(s as int) + "_seconds_count="@
                    + text::decimal(
                    counting::changed_since(cache->0.uids, now - s).len() as int,
                ),
            )
        } else {
            locked_out(r)
        },
    }
}

proof fn lemma_changed_answer(seconds: Seq<char>, cache: Option<CacheView>, now: int, r: Reply)
    requires
        r@ == api::changed_reply(seconds, cache, now),
    ensures
        changed_answer(seconds, cache, now, r),
{
    match text::i64_of(seconds) {
        None => {
            lemma_says(
                r,
                Status::UnprocessableEntity,
                "Couldn't parse "@ + seconds + " into i64"@,
            );
        },
        Some(s) => {
            if cache is Some {
                counting::lemma_fields_changed(cache->0, s as int, now);
                lemma_says(r, Status::Success, cache->0.changed_text(s, now));
            } else {
                lemma_says(r, Status::InternalServerError, "Couldn't lock mutex"@);
            }
        },
    }
}

/// The number of changed fields is told where the seconds are a number and the cache could be
/// locked.
pub proof fn law_changed_fields(
    seconds: &str,
    cache: Option<&ValueCache>,
    now: i64,
    r: Reply,
)
    requires
        call_ensures(api::count_changed_fields_last_seconds_at, (seconds, cache, now), r),
    ensures
        changed_answer(
            seconds@,
            content(cache),
            now as int,
            r,
        ),
{
    lemma_changed_answer(
        seconds@,
        content(cache),
        now as int,
        r,
    );
}

/// By the clock too, the number of changed fields is told where the seconds are a number and the
/// cache could be locked.
pub proof fn law_changed_fields_now(seconds: &str, cache: Option<&ValueCache>, r: Reply)
    requires
        call_ensures(api::count_changed_fields_last_seconds, (seconds, cache), r),
    ensures
        exists|now: i64| #[trigger]
            changed_answer(
                seconds@,
                content(cache),
                now as int,
                r,
            ),
{
    let view = content(cache);
    let now = choose|now: i64|
        r@ == #[trigger] api::changed_reply(seconds@, api::cache_view(cache), now as int);
    lemma_changed_answer(seconds@, view, now as int, r);
}

/// The fields that changed least are told where their number is one and the cache could be locked:
/// a line for each, with its name and how often it changed.
pub proof fn law_least_changed_fields(
    count: &str,
    cache: Option<&ValueCache>,
    r: Reply,
) -> (o: Seq<EntryView>)
    requires
        call_ensures(api::least_changed_fields, (count, cache), r),
    ensures
        text::usize_of(count@) is None ==> says(
            r,
            Status::UnprocessableEntity,
            "Couldn't parse "@ + count@ + " into usize"@,
        ),
        text::usize_of(count@) is Some && cache is None ==> locked_out(r),
        cache is Some ==> telling::ranked(telling::change_counts(cache->0@.uids), o),
        text::usize_of(count@) is Some && cache is Some ==> says(
            r,
            Status::Success,
            fold::concat(
                o.take(
                    if text::usize_of(count@)->0 < o.len() {
                        text::usize_of(count@)->0 as int
                    } else {
                        o.len() as int
                    },
                ),
                |e: EntryView| e.0 + ": "@ + text::decimal(e.1 as int) + "\n"@,
            ),
        ),
{
    match text::usize_of(count@) {
        None => {
            lemma_says(
                r,
                Status::UnprocessableEntity,
                "Couldn't parse "@ + count@ + " into usize"@,
            );
        },
        Some(n) => {
            if cache is Some {
                let g = |e: EntryView| e.0 + ": "@ + text::decimal(e.1 as int) + "\n"@;
                let o = ranking::ranking(cache->0@.entries());
                telling::lemma_ranked(cache->0@);
                let shown = if n < o.len() {
                    n as int
                } else {
                    o.len() as int
                };
                telling::lemma_same_concat(o.take(shown), api::entry_line(), g);
                lemma_says(r, Status::Success, cache->0@.least_changed_text(n));
            } else {
                lemma_says(r, Status::InternalServerError, "Couldn't lock mutex"@);
            }
        },
    }
    if cache is Some {
        telling::lemma_ranked(cache->0@);
        ranking::ranking(cache->0@.entries())
    } else {
        Seq::empty()
    }
}

// ---------------------------------------------------------------- what is inactive

/// What is inactive is listed by the threshold of the cache.
pub proof fn law_list_inactive(c: &ValueCache, now: i64, r: Reply)
    requires
        c.wf(),
        call_ensures(api::list_inactive_at, (Some(c), now), r),
    ensures
        says(
            r,
            Status::Success,
            telling::inactive_notes(
                c@.uids,
                c@.minimum_inactivity_seconds as int,
                now as int,
            ),
        ),
{
    c.lemma_valid();
    telling::lemma_inactive_notes(c@, c@.minimum_inactivity_seconds as int, now as int);
    lemma_says(
        r,
        Status::Success,
        c@.inactive_text(c@.minimum_inactivity_seconds as int, now as int),
    );
}

/// By the clock too, what is inactive is listed by the threshold of the cache.
pub proof fn law_list_inactive_now(c: &ValueCache, r: Reply)
    requires
        c.wf(),
        call_ensures(api::list_inactive, (Some(c),), r),
    ensures
        exists|now: i64|
            says(
                r,
                Status::Success,
                #[trigger] telling::inactive_notes(
                    c@.uids,
                    c@.minimum_inactivity_seconds as int,
                    now as int,
                ),
            ),
{
    c.lemma_valid();
    let added = c@.minimum_inactivity_seconds as int;
    let now = choose|now: i64|
        r@ == api::ReplyView::ok(#[trigger] c@.inactive_text(c@.added(None), now as int));
    telling::lemma_inactive_notes(c@, added, now as int);
    lemma_says(r, Status::Success, c@.inactive_text(added, now as int));
    assert(says(r, Status::Success, telling::inactive_notes(c@.uids, added, now as int)));
}

/// What is inactive by the threshold of the cache is removed, and how much is told.
pub open spec fn all_removed(before: CacheView, after: CacheView, now: int, r: Reply) -> bool {
    let added = before.minimum_inactivity_seconds as int;
    &&& after.uids == silence::left_alive(before.uids, added, now)
    &&& silence::same_but_uids(before, after)
    &&& r.status is Success
    &&& r.body@.len() == 1
    &&& r.body@[0] is Text
    &&& telling::removal_told(before.uids, added, now, r.body@[0]->Text_0@)
}

proof fn lemma_all_removed(before: CacheView, after: CacheView, now: int, r: Reply)
    requires
        before.valid(),
        after == before.pruned(before.added(None), now),
        r@ == api::ReplyView::ok(cache::removal_text(before, before.added(None), now)),
    ensures
        all_removed(before, after, now, r),
{
    let added = before.minimum_inactivity_seconds as int;
    silence::law_left_alive(before, added, now);
    telling::lemma_removal_told(before, added, now);
    lemma_says(r, Status::Success, cache::removal_text(before, added, now));
}

/// A request to remove what is inactive leaves what is alive and tells how much went.
pub proof fn law_remove_inactive(c: &mut ValueCache, now: i64, r: Reply)
    requires
        c.wf(),
        call_ensures(api::remove_inactive_at, (Some(c), now), r),
    ensures
        all_removed(old(c)@, final(c)@, now as int, r),
{
    c.lemma_valid();
    lemma_all_removed(c@, final(c)@, now as int, r);
}

/// By the clock too, a request to remove what is inactive leaves what is alive and tells how much
/// went.
pub proof fn law_remove_inactive_now(c: &mut ValueCache, r: Reply)
    requires
        c.wf(),
        call_ensures(api::remove_inactive, (Some(c),), r),
    ensures
        exists|now: i64| #[trigger] all_removed(old(c)@, final(c)@, now as int, r),
{
    c.lemma_valid();
    let now = choose|now: i64|
        final(c)@ == #[trigger] c@.pruned(c@.added(None), now as int) && r@ == api::ReplyView::ok(
            cache::removal_text(c@, c@.added(None), now as int),
        );
    lemma_all_removed(c@, final(c)@, now as int, r);
}

/// A request to remove one uid is told that it was removed exactly where it was there and nothing
/// of it was alive; otherwise why not, and nothing changes.
pub open spec fn one_removed(
    before: CacheView,
    after: CacheView,
    uid: Seq<char>,
    now: int,
    r: Reply,
) -> bool {
    let added = before.minimum_inactivity_seconds as int;
    &&& silence::same_but_uids(before, after)
    &&& !recording::has_uid(before, uid) ==> after.uids == before.uids && says(
        r,
        Status::Success,
        "UID was not inactive and was not removed: "@ + "UID not found"@,
    )
    &&& forall|i: int|
        0 <= i < before.uids.len() && (#[trigger] before.uids[i]).uid == uid ==> {
            if exists|k: int|
                0 <= k < before.uids[i].fields.len() && !silence::silent(
                    #[trigger] before.uids[i].fields[k],
                    added,
                    now,
                ) {
                &&& after.uids == before.uids
                &&& says(
                    r,
                    Status::Success,
                    "UID was not inactive and was not removed: "@ + ("Uid "@ + uid
                        + " was not inactive"@),
                )
            } else {
                &&& after.uids == before.uids.take(i) + before.uids.skip(i + 1)
                &&& says(r, Status::Success, "Removed inactive UID: "@ + uid)
            }
        }
}

proof fn lemma_one_removed(
    before: CacheView,
    after: CacheView,
    uid: Seq<char>,
    now: int,
    answer: Result<(), String>,
    r: Reply,
)
    requires
        before.valid(),
        cache::removal_answer(before, after, uid, before.added(None), now, answer),
        r@ == api::removal_reply(uid, answer),
    ensures
        one_removed(before, after, uid, now, r),
{
    let added = before.minimum_inactivity_seconds as int;
    silence::lemma_removed_if_silent(before, after, uid, added, now, answer);
    match answer {
        Ok(_) => {
            lemma_says(r, Status::Success, "Removed inactive UID: "@ + uid);
        },
        Err(m) => {
            lemma_says(
                r,
                Status::Success,
                "UID was not inactive and was not removed: "@ + m@,
            );
        },
    }
}

/// A request to remove one uid is met exactly where nothing of the uid is alive.
pub proof fn law_remove_inactive_uid(uid: &str, c: &mut ValueCache, now: i64, r: Reply)
    requires
        c.wf(),
        call_ensures(api::remove_inactive_uid_at, (uid, Some(c), now), r),
    ensures
        one_removed(old(c)@, final(c)@, uid@, now as int, r),
{
    c.lemma_valid();
    let answer = choose|answer: Result<(), String>|
        #[trigger] cache::removal_answer(
            c@,
            final(c)@,
            uid@,
            c@.added(None),
            now as int,
            answer,
        ) && r@ == api::removal_reply(uid@, answer);
    lemma_one_removed(c@, final(c)@, uid@, now as int, answer, r);
}

/// By the clock too, a request to remove one uid is met exactly where nothing of the uid is alive.
pub proof fn law_remove_inactive_uid_now(uid: &str, c: &mut ValueCache, r: Reply)
    requires
        c.wf(),
        call_ensures(api::remove_inactive_uid, (uid, Some(c)), r),
    ensures
        exists|now: i64| #[trigger] one_removed(old(c)@, final(c)@, uid@, now as int, r),
{
    c.lemma_valid();
    let (now, answer) = choose|now: i64, answer: Result<(), String>|
        #[trigger] cache::removal_answer(
            c@,
            final(c)@,
            uid@,
            c@.added(None),
            now as int,
            answer,
        ) && r@ == api::removal_reply(uid@, answer);
    lemma_one_removed(c@, final(c)@, uid@, now as int, answer, r);
}

// ---------------------------------------------------------------- statistics

/// The line tells, behind each label, the quantity that the label names.
pub open spec fn statistics(
    c: CacheView,
    host: Option<Seq<char>>,
    now: int,
    min: int,
    max: int,
    average: int,
) -> Seq<char> {
    let added = c.minimum_inactivity_seconds as int;
    c.output_measurement + (if host is Some {
        ",host="@ + host->0
    } else {
        Seq::empty()
    }) + " timeperiod_length_seconds="@ + text::decimal(c.last_value_ts - c.first_value_ts)
        + ",uid_all_count="@ + text::decimal(c.uids.len() as int) + ",uid_inactive_count="@
        + text::decimal(counting::uids_before(c.uids, now - added).len() as int)
        + ",uid_plus_field_combination_count="@ + text::decimal(
        counting::all_fields(c.uids).len() as int,
    ) + ",uid_field_inactive_count="@ + text::decimal(
        counting::silent_fields(c.uids, added, now).len() as int,
    ) + ",uid_age_min="@ + text::decimal(min) + ",uid_age_max="@ + text::decimal(max)
        + ",uid_age_mean="@ + text::decimal(average) + ",kafka_message_count="@ + text::decimal(
        c.kafka_message_count as int,
    ) + ",ilp_line_count="@ + text::decimal(c.ilp_line_count as int) + ",field_count="@
        + text::decimal(c.fields_seen_count as int) + ",changed_fields_count="@ + text::decimal(
        c.fields_changed_count as int,
    ) + ",unique_field_name_count="@ + text::decimal(counting::names_in(c.uids).len() as int)
        + ",fields_sent_initial_count="@ + text::decimal(c.fields_sent_initial_count as int)
        + ",fields_sent_suppressed_count="@ + text::decimal(
        c.fields_sent_suppressed_count as int,
    ) + ",fields_sent_changed_count="@ + text::decimal(c.fields_sent_changed_count as int)
        + ",fields_sent_timeout="@ + text::decimal(c.fields_sent_timeout_count as int) + "\n"@
}

/// Statistics are told once a line was recorded, and until then that there are none.
pub open spec fn statistics_told(
    c: CacheView,
    host: Option<Seq<char>>,
    now: int,
    r: Reply,
) -> bool {
    if c.first_value_ts > c.last_value_ts {
        says(r, Status::Success, "Not enough data collected"@)
    } else {
        exists|min: int, max: int, average: int|
            counting::ages_of(c.uids, now, min, max, average) && says(
                r,
                Status::Success,
                #[trigger] statistics(c, host, now, min, max, average),
            )
    }
}

proof fn lemma_statistics(c: CacheView, host: Option<Seq<char>>, now: int, r: Reply)
    requires
        c.valid(),
        r@ == api::ReplyView::ok(c.stats(host, now)),
    ensures
        statistics_told(c, host, now, r),
{
    let added = c.minimum_inactivity_seconds as int;
    lemma_says(r, Status::Success, c.stats(host, now));
    if c.first_value_ts <= c.last_value_ts {
        counting::lemma_ages(c, now);
        counting::lemma_uids_silent(c, added, now);
        counting::lemma_field_total(c);
        counting::lemma_fields_inactive(c, added, now);
        counting::lemma_names(c);
        let a = c.ages(now);
        let line = statistics(c, host, now, a.min, a.max, a.average);
        assert(c.stats_line(host, now) =~= line);
        assert(says(r, Status::Success, line));
    }
}

/// The statistics tell, behind each label, the quantity that the label names.
pub proof fn law_stats(c: &ValueCache, host: Option<&str>, now: i64, r: Reply)
    requires
        c.wf(),
        call_ensures(api::stats_at, (Some(c), host, now), r),
    ensures
        statistics_told(
            c@,
            name_of(host),
            now as int,
            r,
        ),
{
    c.lemma_valid();
    let h = name_of(host);
    lemma_statistics(c@, h, now as int, r);
}

/// By the clock too, the statistics tell, behind each label, the quantity that the label names.
pub proof fn law_stats_now(c: &ValueCache, host: Option<&str>, r: Reply)
    requires
        c.wf(),
        call_ensures(api::stats, (Some(c), host), r),
    ensures
        exists|now: i64| #[trigger]
            statistics_told(
                c@,
                name_of(host),
                now as int,
                r,
            ),
{
    c.lemma_valid();
    let h = name_of(host);
    let now = choose|now: i64|
        r@ == api::ReplyView::ok(#[trigger] c@.stats(api::host_view(host), now as int));
    lemma_statistics(c@, h, now as int, r);
}

/// Behind this label the text holds the numeral of `n`, and behind that the next label or the end
/// of the line.
pub open spec fn shows(t: Seq<char>, label: Seq<char>, n: int) -> bool {
    exists|head: Seq<char>, tail: Seq<char>|
        t == #[trigger] (head + label + text::decimal(n) + tail) && tail.len() > 0 && (tail[0]
            == ',' || tail[0] == '\n')
}

/// The numbers behind the labels of the values that were held back and of those that were sent
/// after a timeout are those of the cache.
proof fn lemma_shows_sendings(
    c: CacheView,
    host: Option<Seq<char>>,
    now: int,
    min: int,
    max: int,
    average: int,
)
    ensures
        shows(
            statistics(c, host, now, min, max, average),
            ",fields_sent_suppressed_count="@,
            c.fields_sent_suppressed_count as int,
        ),
        shows(
            statistics(c, host, now, min, max, average),
            ",fields_sent_timeout="@,
            c.fields_sent_timeout_count as int,
        ),
{
    reveal_strlit(",fields_sent_changed_count=");
    reveal_strlit("\n");
    let added = c.minimum_inactivity_seconds as int;
    let line = statistics(c, host, now, min, max, average);
    let head = c.output_measurement + (if host is Some {
        ",host="@ + host->0
    } else {
        Seq::empty()
    }) + " timeperiod_length_seconds="@ + text::decimal(c.last_value_ts - c.first_value_ts)
        + ",uid_all_count="@ + text::decimal(c.uids.len() as int) + ",uid_inactive_count="@
        + text::decimal(counting::uids_before(c.uids, now - added).len() as int)
        + ",uid_plus_field_combination_count="@ + text::decimal(
        counting::all_fields(c.uids).len() as int,
    ) + ",uid_field_inactive_count="@ + text::decimal(
        counting::silent_fields(c.uids, added, now).len() as int,
    ) + ",uid_age_min="@ + text::decimal(min) + ",uid_age_max="@ + text::decimal(max)
        + ",uid_age_mean="@ + text::decimal(average) + ",kafka_message_count="@ + text::decimal(
        c.kafka_message_count as int,
    ) + ",ilp_line_count="@ + text::decimal(c.ilp_line_count as int) + ",field_count="@
        + text::decimal(c.fields_seen_count as int) + ",changed_fields_count="@ + text::decimal(
        c.fields_changed_count as int,
    ) + ",unique_field_name_count="@ + text::decimal(counting::names_in(c.uids).len() as int)
        + ",fields_sent_initial_count="@ + text::decimal(c.fields_sent_initial_count as int);
    let changed = ",fields_sent_changed_count="@ + text::decimal(
        c.fields_sent_changed_count as int,
    );
    let held = head + ",fields_sent_suppressed_count="@ + text::decimal(
        c.fields_sent_suppressed_count as int,
    );
    let late = ",fields_sent_timeout="@ + text::decimal(c.fields_sent_timeout_count as int)
        + "\n"@;
    assert(line =~= held + (changed + late));
    assert(line =~= (held + changed) + ",fields_sent_timeout="@ + text::decimal(
        c.fields_sent_timeout_count as int,
    ) + "\n"@);
    assert((changed + late)[0] == ',');
    assert("\n"@[0] == '\n');
}

/// After one more value alike to the one held, less than a minute since the last sending, the
/// number behind the label of the values held back is one more, and that behind the label of those
/// sent after a timeout is the same; a minute or more since, it is the other way round.
pub proof fn law_stats_count_sendings(
    before: &ValueCache,
    after: &ValueCache,
    uid: Seq<char>,
    equipment_tag: Option<Seq<char>>,
    f: FieldView,
    value: ValueView,
    t: i64,
    host: Option<&str>,
    now: i64,
    first: Reply,
    second: Reply,
) -> (counts: (int, int))
    requires
        before.wf(),
        after.wf(),
        recording::stands(before@, uid, f),
        values::alike(f.value, value),
        after@ == before@.recorded(uid, equipment_tag, seq![(f.name, value)], t, f.measurement),
        call_ensures(api::stats_at, (Some(before), host, now), first),
        call_ensures(api::stats_at, (Some(after), host, now), second),
    ensures
        first.body@.len() == 1 && first.body@[0] is Text,
        second.body@.len() == 1 && second.body@[0] is Text,
        shows(first.body@[0]->Text_0@, ",fields_sent_suppressed_count="@, counts.0),
        shows(first.body@[0]->Text_0@, ",fields_sent_timeout="@, counts.1),
        t - f.last_sent_ts < 60 ==> shows(
            second.body@[0]->Text_0@,
            ",fields_sent_suppressed_count="@,
            counts.0 + 1,
        ) && shows(second.body@[0]->Text_0@, ",fields_sent_timeout="@, counts.1),
        t - f.last_sent_ts >= 60 ==> shows(
            second.body@[0]->Text_0@,
            ",fields_sent_suppressed_count="@,
            counts.0,
        ) && shows(second.body@[0]->Text_0@, ",fields_sent_timeout="@, counts.1 + 1),
        counts.0 == before@.fields_sent_suppressed_count,
        counts.1 == before@.fields_sent_timeout_count,
{
    before.lemma_valid();
    after.lemma_valid();
    let h = name_of(host);
    let _ = recording::lemma_stands(before@, uid, f);
    law_stats(before, host, now, first);
    law_stats(after, host, now, second);
    recording::law_value_counted(before@, uid, equipment_tag, f, value, t);
    let (a, b, d) = choose|min: int, max: int, average: int|
        counting::ages_of(before@.uids, now as int, min, max, average) && says(
            first,
            Status::Success,
            #[trigger] statistics(before@, h, now as int, min, max, average),
        );
    lemma_shows_sendings(before@, h, now as int, a, b, d);
    let (x, y, z) = choose|min: int, max: int, average: int|
        counting::ages_of(after@.uids, now as int, min, max, average) && says(
            second,
            Status::Success,
            #[trigger] statistics(after@, h, now as int, min, max, average),
        );
    lemma_shows_sendings(after@, h, now as int, x, y, z);
    (
        before@.fields_sent_suppressed_count as int,
        before@.fields_sent_timeout_count as int,
    )
}

} // verus!
