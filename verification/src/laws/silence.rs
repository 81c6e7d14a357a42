//! What has fallen silent, and what is removed for it.

use vstd::prelude::*;

use crate::arith;
use crate::cache;
use crate::cache::{FieldInfo, UidInfo, ValueCache};
use crate::laws::history;
use crate::laws::history::Reading;
use crate::laws::recording;
use crate::model;
use crate::model::{CacheView, FieldView, UidView};

verus! {

// ---------------------------------------------------------------- the frequency

/// The quotient by a positive number is the whole number next to the fraction, toward zero.
pub proof fn law_quotient(a: int, b: int)
    requires
        b > 0,
    ensures
        a >= 0 ==> arith::quotient(a, b) * b <= a < (arith::quotient(a, b) + 1) * b,
        a < 0 ==> (arith::quotient(a, b) - 1) * b < a <= arith::quotient(a, b) * b,
{
    if a >= 0 {
        vstd::arithmetic::div_mod::lemma_fundamental_div_mod(a, b);
        let q = a / b;
        assert(q * b <= a < (q + 1) * b) by (nonlinear_arith)
            requires
                a == b * q + a % b,
                0 <= a % b < b,
        ;
    } else {
        vstd::arithmetic::div_mod::lemma_fundamental_div_mod(-a, b);
        let q = (-a) / b;
        assert((-q - 1) * b < a <= (-q) * b) by (nonlinear_arith)
            requires
                -a == b * q + (-a) % b,
                0 <= (-a) % b < b,
        ;
    }
}

/// Division gives the whole number next to the fraction, toward zero.
pub proof fn law_divide(a: i128, b: i128, r: i128)
    requires
        b > 0,
        call_ensures(arith::divide, (a, b), r),
    ensures
        a >= 0 ==> r * b <= a < (r + 1) * b,
        a < 0 ==> (r - 1) * b < a <= r * b,
{
    law_quotient(a as int, b as int);
}

/// The frequency of a field is the time from its first to its latest value over all the intervals
/// between its values, in whole seconds; a field that was seen once has none.
pub proof fn law_frequency(f: FieldView)
    requires
        f.first_seen_ts <= f.last_seen_ts,
    ensures
        f.seen_count < 2 ==> f.frequency() == -1,
        f.seen_count >= 2 ==> f.frequency() * (f.seen_count - 1) <= f.last_seen_ts
            - f.first_seen_ts < (f.frequency() + 1) * (f.seen_count - 1),
{
    if f.seen_count >= 2 {
        law_quotient(f.last_seen_ts - f.first_seen_ts, f.seen_count - 1);
    }
}

/// What is estimated is the time from the first to the latest value over all the intervals between
/// the values.
pub proof fn law_estimated_frequency(f: &FieldInfo, r: i128)
    requires
        f.first_seen_ts <= f.last_seen_ts,
        call_ensures(FieldInfo::estimated_frequency, (f,), r),
    ensures
        f.seen_count < 2 ==> r == -1,
        f.seen_count >= 2 ==> r * (f.seen_count - 1) <= f.last_seen_ts - f.first_seen_ts < (r + 1)
            * (f.seen_count - 1),
{
    law_frequency(f@);
}

// ---------------------------------------------------------------- silence

/// The field was seen more than once, and its silence, less `added` seconds, is longer than the
/// mean time between its values: it would outlast the span of the values, were it as often repeated
/// as they were.
pub open spec fn silent(f: FieldView, added: int, now: int) -> bool {
    f.seen_count >= 2 && (now - f.last_seen_ts - added) * (f.seen_count - 1) > f.last_seen_ts
        - f.first_seen_ts
}

/// Some field of the uid is not silent.
pub open spec fn alive(u: UidView, added: int, now: int) -> bool {
    exists|k: int| 0 <= k < u.fields.len() && !silent(#[trigger] u.fields[k], added, now)
}

/// The times of the fields of these uids are in order.
pub open spec fn timely(uids: Seq<UidView>) -> bool {
    forall|i: int, k: int|
        0 <= i < uids.len() && 0 <= k < uids[i].fields.len() ==> (
        #[trigger] uids[i].fields[k]).first_seen_ts <= uids[i].fields[k].last_seen_ts
}

pub proof fn lemma_timely(cache: CacheView)
    requires
        cache.valid(),
    ensures
        timely(cache.uids),
{
    assert forall|i: int, k: int|
        0 <= i < cache.uids.len() && 0 <= k < cache.uids[i].fields.len() implies (
    #[trigger] cache.uids[i].fields[k]).first_seen_ts <= cache.uids[i].fields[k].last_seen_ts by {
        assert(cache.uids[i].valid());
        assert(cache.uids[i].fields[k].valid());
    }
}

/// A field is inactive exactly where it is silent.
pub proof fn law_silent(f: FieldView, added: int, now: int)
    requires
        f.first_seen_ts <= f.last_seen_ts,
    ensures
        f.inactive(added, now) <==> silent(f, added, now),
{
    law_frequency(f);
    if f.seen_count >= 2 {
        let n = f.seen_count - 1;
        let x = now - f.last_seen_ts - added;
        let q = f.frequency();
        let span = f.last_seen_ts - f.first_seen_ts;
        assert(x > q <==> x * n > span) by (nonlinear_arith)
            requires
                n > 0,
                q * n <= span < (q + 1) * n,
        ;
    }
}

/// Whether a field is inactive at a time is whether it is silent then.
pub proof fn law_field_is_inactive(f: &FieldInfo, added: u64, now: i64, r: bool)
    requires
        f.first_seen_ts <= f.last_seen_ts,
        call_ensures(FieldInfo::is_inactive_at, (f, added, now), r),
    ensures
        r <==> silent(f@, added as int, now as int),
{
    law_silent(f@, added as int, now as int);
}

/// Whether a field is inactive by the clock is whether it is silent at some time.
pub proof fn law_field_is_inactive_now(f: &FieldInfo, added: u64, r: bool)
    requires
        f.first_seen_ts <= f.last_seen_ts,
        call_ensures(FieldInfo::is_inactive, (f, added), r),
    ensures
        exists|now: i64| r <==> #[trigger] silent(f@, added as int, now as int),
{
    let now = choose|now: i64| #[trigger] f@.inactive(added as int, now as int) == r;
    law_silent(f@, added as int, now as int);
    assert(r <==> silent(f@, added as int, now as int));
}

/// A uid is inactive exactly where none of its fields is alive.
pub proof fn law_uid_silent(u: UidView, added: int, now: int)
    requires
        forall|k: int|
            0 <= k < u.fields.len() ==> (#[trigger] u.fields[k]).first_seen_ts
                <= u.fields[k].last_seen_ts,
    ensures
        u.inactive(added, now) <==> !alive(u, added, now),
{
    assert forall|k: int| 0 <= k < u.fields.len() implies ((#[trigger] u.fields[k]).inactive(
        added,
        now,
    ) <==> silent(u.fields[k], added, now)) by {
        law_silent(u.fields[k], added, now);
    }
    if u.inactive(added, now) && alive(u, added, now) {
        let k = choose|k: int|
            0 <= k < u.fields.len() && !silent(#[trigger] u.fields[k], added, now);
        assert(u.fields[k].inactive(added, now));
    }
}

/// Whether a uid is inactive at a time is whether none of its fields is alive then.
pub proof fn law_uid_is_inactive(u: &UidInfo, added: u64, now: i64, r: bool)
    requires
        u@.valid(),
        call_ensures(UidInfo::is_inactive_at, (u, added, now), r),
    ensures
        r <==> !alive(u@, added as int, now as int),
{
    assert forall|k: int| 0 <= k < u@.fields.len() implies (#[trigger] u@.fields[k]).first_seen_ts
        <= u@.fields[k].last_seen_ts by {
        assert(u@.fields[k].valid());
    }
    law_uid_silent(u@, added as int, now as int);
}

/// Whether a uid is inactive by the clock is whether none of its fields is alive at some time.
pub proof fn law_uid_is_inactive_now(u: &UidInfo, added: u64, r: bool)
    requires
        u@.valid(),
        call_ensures(UidInfo::is_inactive, (u, added), r),
    ensures
        exists|now: i64| r <==> !#[trigger] alive(u@, added as int, now as int),
{
    let now = choose|now: i64| #[trigger] u@.inactive(added as int, now as int) == r;
    assert forall|k: int| 0 <= k < u@.fields.len() implies (#[trigger] u@.fields[k]).first_seen_ts
        <= u@.fields[k].last_seen_ts by {
        assert(u@.fields[k].valid());
    }
    law_uid_silent(u@, added as int, now as int);
    assert(r <==> !alive(u@, added as int, now as int));
}

/// A field that was recorded at a steady step has that step for its frequency, however often it was
/// recorded, and is inactive exactly where more than the step and the added seconds have passed
/// since its latest value.
pub proof fn law_steady_field(
    cache: CacheView,
    uid: Seq<char>,
    equipment_tag: Option<Seq<char>>,
    name: Seq<char>,
    measurement: Seq<char>,
    readings: Seq<Reading>,
    step: int,
    added: int,
    now: int,
) -> (f: FieldView)
    requires
        cache.valid(),
        !recording::has_field(cache, uid, name, measurement),
        readings.len() >= 2,
        step >= 0,
        forall|i: int|
            0 <= i < readings.len() ==> (#[trigger] readings[i]).1 == readings[0].1 + step * i,
    ensures
        recording::stands(
            history::after_readings(cache, uid, equipment_tag, name, measurement, readings),
            uid,
            f,
        ),
        f.name == name,
        f.measurement == measurement,
        f.frequency() == step,
        f.inactive(added, now) <==> now > readings[readings.len() - 1].1 + step + added,
{
    let n = readings.len() as int;
    let f = history::law_history(cache, uid, equipment_tag, name, measurement, readings);
    let m = choose|i: int| 0 <= i < n && (#[trigger] readings[i]).1 == f.last_seen_ts;
    assert(readings[n - 1].1 <= f.last_seen_ts);
    assert(readings[0].1 <= f.last_seen_ts);
    assert(step * m <= step * (n - 1)) by (nonlinear_arith)
        requires
            step >= 0,
            m <= n - 1,
    ;
    assert(f.last_seen_ts - f.first_seen_ts == step * (n - 1));
    law_frequency(f);
    let q = f.frequency();
    assert(q == step) by (nonlinear_arith)
        requires
            n >= 2,
            q * (n - 1) <= step * (n - 1) < (q + 1) * (n - 1),
    ;
    law_silent(f, added, now);
    let x = now - f.last_seen_ts - added;
    assert(x * (n - 1) > step * (n - 1) <==> x > step) by (nonlinear_arith)
        requires
            n >= 2,
    ;
    f
}

// ---------------------------------------------------------------- removal

/// A uid is removed exactly where it is known and none of its fields is alive; it goes with all its
/// fields, and nothing else does. A uid with a field that is alive is refused and stays as it is.
pub proof fn law_remove_uid(
    c: &mut ValueCache,
    uid: &str,
    seconds: Option<u64>,
    now: i64,
    r: Result<(), String>,
)
    requires
        c.wf(),
        call_ensures(ValueCache::remove_uid_if_inactive_at, (c, uid, seconds, now), r),
    ensures
        removed_if_silent(old(c)@, final(c)@, uid@, threshold(old(c)@, seconds), now as int, r),
{
    c.lemma_valid();
    lemma_removed_if_silent(c@, final(c)@, uid@, threshold(c@, seconds), now as int, r);
}

/// By the clock too, a uid is removed exactly where it is known and none of its fields is alive.
pub proof fn law_remove_uid_now(
    c: &mut ValueCache,
    uid: &str,
    seconds: Option<u64>,
    r: Result<(), String>,
)
    requires
        c.wf(),
        call_ensures(ValueCache::remove_uid_if_inactive, (c, uid, seconds), r),
    ensures
        exists|now: i64| #[trigger]
            removed_if_silent(old(c)@, final(c)@, uid@, threshold(old(c)@, seconds), now as int, r),
{
    c.lemma_valid();
    let now = choose|now: i64| #[trigger]
        cache::removal_answer(c@, final(c)@, uid@, c@.added(seconds), now as int, r);
    lemma_removed_if_silent(c@, final(c)@, uid@, threshold(c@, seconds), now as int, r);
}

/// The seconds given, or those that the cache was made with.
pub open spec fn threshold(cache: CacheView, seconds: Option<u64>) -> int {
    if seconds is Some {
        seconds->0 as int
    } else {
        cache.minimum_inactivity_seconds as int
    }
}

/// Everything but the uids is as it was.
pub open spec fn same_but_uids(before: CacheView, after: CacheView) -> bool {
    &&& after.output_measurement == before.output_measurement
    &&& after.precision == before.precision
    &&& after.created_timestamp == before.created_timestamp
    &&& after.first_value_ts == before.first_value_ts
    &&& after.last_value_ts == before.last_value_ts
    &&& after.minimum_inactivity_seconds == before.minimum_inactivity_seconds
    &&& after.kafka_message_count == before.kafka_message_count
    &&& after.ilp_line_count == before.ilp_line_count
    &&& after.fields_seen_count == before.fields_seen_count
    &&& after.fields_changed_count == before.fields_changed_count
    &&& after.fields_sent_changed_count == before.fields_sent_changed_count
    &&& after.fields_sent_timeout_count == before.fields_sent_timeout_count
    &&& after.fields_sent_initial_count == before.fields_sent_initial_count
    &&& after.fields_sent_suppressed_count == before.fields_sent_suppressed_count
}

/// The request to remove a uid is met exactly where the uid is there and no field of it is alive,
/// and only then anything changes.
pub open spec fn removed_if_silent(
    before: CacheView,
    after: CacheView,
    uid: Seq<char>,
    added: int,
    now: int,
    answer: Result<(), String>,
) -> bool {
    &&& same_but_uids(before, after)
    &&& !recording::has_uid(before, uid) ==> answer is Err && answer->Err_0@ == "UID not found"@
        && after.uids == before.uids
    &&& forall|i: int|
        0 <= i < before.uids.len() && (#[trigger] before.uids[i]).uid == uid ==> {
            if exists|k: int|
                0 <= k < before.uids[i].fields.len() && !silent(
                    #[trigger] before.uids[i].fields[k],
                    added,
                    now,
                ) {
                &&& answer is Err
                &&& answer->Err_0@ == "Uid "@ + uid + " was not inactive"@
                &&& after.uids == before.uids
            } else {
                &&& answer is Ok
                &&& after.uids == before.uids.take(i) + before.uids.skip(i + 1)
            }
        }
}

pub proof fn lemma_removed_if_silent(
    before: CacheView,
    after: CacheView,
    uid: Seq<char>,
    added: int,
    now: int,
    answer: Result<(), String>,
)
    requires
        before.valid(),
        cache::removal_answer(before, after, uid, added, now, answer),
    ensures
        removed_if_silent(before, after, uid, added, now, answer),
{
    assert(recording::has_uid(before, uid) <==> model::known_uid(before.uids, uid));
    assert forall|i: int| 0 <= i < before.uids.len() && (#[trigger] before.uids[i]).uid
        == uid implies {
        if alive(before.uids[i], added, now) {
            &&& answer is Err
            &&& answer->Err_0@ == "Uid "@ + uid + " was not inactive"@
            &&& after.uids == before.uids
        } else {
            &&& answer is Ok
            &&& after.uids == before.uids.take(i) + before.uids.skip(i + 1)
        }
    } by {
        let j = model::uid_place(before.uids, uid);
        assert(model::known_uid(before.uids, uid));
        assert(before.uids[j].uid == uid);
        assert(i == j);
        assert(before.uids[i].valid());
        assert forall|k: int| 0 <= k < before.uids[i].fields.len() implies (
        #[trigger] before.uids[i].fields[k]).first_seen_ts
            <= before.uids[i].fields[k].last_seen_ts by {
            assert(before.uids[i].fields[k].valid());
        }
        law_uid_silent(before.uids[i], added, now);
        assert(before.uids.remove(i) =~= before.uids.take(i) + before.uids.skip(i + 1));
    }
}

/// What a removal of everything silent leaves: the uids with a field that is alive, in order, each
/// with its fields that are alive, in order.
pub open spec fn left_alive(uids: Seq<UidView>, added: int, now: int) -> Seq<UidView> {
    uids.filter(|u: UidView| alive(u, added, now)).map_values(
        |u: UidView|
            UidView {
                uid: u.uid,
                first_seen_ts: u.first_seen_ts,
                last_seen_ts: u.last_seen_ts,
                seen_count: u.seen_count,
                equipment_tag: u.equipment_tag,
                fields: u.fields.filter(|f: FieldView| !silent(f, added, now)),
            },
    )
}

/// Removing what is inactive leaves what is alive, and nothing but the uids is touched.
pub proof fn law_left_alive(cache: CacheView, added: int, now: int)
    requires
        cache.valid(),
    ensures
        cache.pruned(added, now).uids == left_alive(cache.uids, added, now),
        same_but_uids(cache, cache.pruned(added, now)),
{
    lemma_timely(cache);
    let kept = |u: UidView| alive(u, added, now);
    assert forall|i: int| 0 <= i < cache.uids.len() implies model::active_uid(added, now)(
        #[trigger] cache.uids[i],
    ) == kept(cache.uids[i]) by {
        assert forall|k: int| 0 <= k < cache.uids[i].fields.len() implies (
        #[trigger] cache.uids[i].fields[k]).first_seen_ts
            <= cache.uids[i].fields[k].last_seen_ts by {}
        law_uid_silent(cache.uids[i], added, now);
    }
    lemma_same_filter(cache.uids, model::active_uid(added, now), kept);
    let all = cache.uids.filter(kept);
    assert forall|i: int| 0 <= i < all.len() implies all[i].fields.filter(
        model::active_field(added, now),
    ) == (#[trigger] all[i]).fields.filter(|f: FieldView| !silent(f, added, now)) by {
        cache.uids.lemma_filter_contains_rev(kept, all[i]);
        let j = choose|j: int| 0 <= j < cache.uids.len() && cache.uids[j] == all[i];
        let fields = cache.uids[j].fields;
        assert forall|k: int| 0 <= k < fields.len() implies model::active_field(added, now)(
            #[trigger] fields[k],
        ) == !silent(fields[k], added, now) by {
            assert(cache.uids[j].fields[k].first_seen_ts <= cache.uids[j].fields[k].last_seen_ts);
            law_silent(fields[k], added, now);
        }
        lemma_same_filter(
            fields,
            model::active_field(added, now),
            |f: FieldView| !silent(f, added, now),
        );
    }
    assert(cache.pruned(added, now).uids =~= left_alive(cache.uids, added, now));
}

pub proof fn lemma_same_filter<T>(s: Seq<T>, p: spec_fn(T) -> bool, q: spec_fn(T) -> bool)
    requires
        forall|i: int| 0 <= i < s.len() ==> p(#[trigger] s[i]) == q(s[i]),
    ensures
        s.filter(p) == s.filter(q),
    decreases s.len(),
{
    reveal(Seq::filter);
    if s.len() > 0 {
        let t = s.drop_last();
        assert forall|i: int| 0 <= i < t.len() implies p(#[trigger] t[i]) == q(t[i]) by {
            assert(t[i] == s[i]);
        }
        lemma_same_filter(t, p, q);
        assert(p(s[s.len() - 1]) == q(s[s.len() - 1]));
    }
}

} // verus!
