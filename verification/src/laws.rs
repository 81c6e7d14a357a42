//! What holds of the cache over several operations.

use vstd::prelude::*;

use crate::activity;
use crate::arith;
use crate::cache;
use crate::consumer;
use crate::consumer::{LineView, OutcomeView};
use crate::fold;
use crate::invariants;
use crate::model;
use crate::model::{CacheView, FieldView, ItemView, Sending, UidView};
use crate::order;
use crate::reports;
use crate::stats_utils;
use crate::value::ValueView;

pub mod contents;
pub mod counting;
pub mod history;
pub mod messages;
pub mod recording;
pub mod requests;
pub mod silence;
pub mod telling;
pub mod values;
pub mod writing;

verus! {

// ---------------------------------------------------------------- reading back

/// The field of this name and measurement holds this value.
pub open spec fn holds(
    fields: Seq<FieldView>,
    name: Seq<char>,
    measurement: Seq<char>,
    value: ValueView,
) -> bool {
    &&& model::known_field(fields, name, measurement)
    &&& fields[model::field_place(fields, name, measurement)].value == value
}

proof fn lemma_place(fields: Seq<FieldView>, i: int)
    requires
        model::distinct_fields(fields),
        0 <= i < fields.len(),
    ensures
        model::known_field(fields, fields[i].name, fields[i].measurement),
        model::field_place(fields, fields[i].name, fields[i].measurement) == i,
{
    assert(fields[i].is(fields[i].name, fields[i].measurement));
    let j = model::field_place(fields, fields[i].name, fields[i].measurement);
    assert(fields[j].is(fields[i].name, fields[i].measurement));
}

/// A field that stands in the same place under the same name holds what stands there.
proof fn lemma_holds_at(
    fields: Seq<FieldView>,
    i: int,
    name: Seq<char>,
    measurement: Seq<char>,
    value: ValueView,
)
    requires
        model::distinct_fields(fields),
        0 <= i < fields.len(),
        fields[i].is(name, measurement),
        fields[i].value == value,
    ensures
        holds(fields, name, measurement, value),
{
    lemma_place(fields, i);
}

proof fn lemma_values_read_back(
    fields: Seq<FieldView>,
    set: Seq<ItemView>,
    measurement: Seq<char>,
    timestamp: i64,
    seen: nat,
    oldest: i64,
    newest: i64,
    k: int,
)
    requires
        invariants::fields_within(fields, seen, oldest, newest),
        0 <= k < set.len(),
        forall|j: int| k < j < set.len() ==> (#[trigger] set[j]).0 != set[k].0,
    ensures
        holds(
            model::with_values(fields, set, measurement, timestamp),
            set[k].0,
            measurement,
            set[k].1,
        ),
    decreases set.len(),
{
    let before = model::with_values(fields, set.drop_last(), measurement, timestamp);
    let after = model::with_values(fields, set, measurement, timestamp);
    let item = set.last();
    invariants::lemma_with_values(fields, set, measurement, timestamp, seen, oldest, newest);
    invariants::lemma_with_values(
        fields,
        set.drop_last(),
        measurement,
        timestamp,
        seen,
        oldest,
        newest,
    );
    if k == set.len() - 1 {
        let i = if model::known_field(before, item.0, measurement) {
            model::field_place(before, item.0, measurement)
        } else {
            before.len() as int
        };
        lemma_holds_at(after, i, item.0, measurement, item.1);
    } else {
        assert forall|j: int| k < j < set.drop_last().len() implies (
        #[trigger] set.drop_last()[j]).0 != set.drop_last()[k].0 by {
            assert(set[j].0 != set[k].0);
        }
        lemma_values_read_back(
            fields,
            set.drop_last(),
            measurement,
            timestamp,
            seen,
            oldest,
            newest,
            k,
        );
        let i = model::field_place(before, set[k].0, measurement);
        assert(set[set.len() - 1].0 != set[k].0);
        lemma_holds_at(after, i, set[k].0, measurement, set[k].1);
    }
}

proof fn lemma_first_values_read_back(
    set: Seq<ItemView>,
    measurement: Seq<char>,
    timestamp: i64,
    k: int,
)
    requires
        0 <= k < set.len(),
        forall|j: int| k < j < set.len() ==> (#[trigger] set[j]).0 != set[k].0,
    ensures
        holds(
            model::first_values(set, measurement, timestamp),
            set[k].0,
            measurement,
            set[k].1,
        ),
    decreases set.len(),
{
    let before = model::first_values(set.drop_last(), measurement, timestamp);
    let after = model::first_values(set, measurement, timestamp);
    let item = set.last();
    invariants::lemma_first_values(set, measurement, timestamp);
    invariants::lemma_first_values(set.drop_last(), measurement, timestamp);
    if k == set.len() - 1 {
        let i = if model::known_field(before, item.0, measurement) {
            model::field_place(before, item.0, measurement)
        } else {
            before.len() as int
        };
        lemma_holds_at(after, i, item.0, measurement, item.1);
    } else {
        assert forall|j: int| k < j < set.drop_last().len() implies (
        #[trigger] set.drop_last()[j]).0 != set.drop_last()[k].0 by {
            assert(set[j].0 != set[k].0);
        }
        lemma_first_values_read_back(set.drop_last(), measurement, timestamp, k);
        let i = model::field_place(before, set[k].0, measurement);
        assert(set[set.len() - 1].0 != set[k].0);
        lemma_holds_at(after, i, set[k].0, measurement, set[k].1);
    }
}

/// Where the uid of a line stands after the line.
pub proof fn lemma_recorded_place(
    cache: CacheView,
    uid: Seq<char>,
    equipment_tag: Option<Seq<char>>,
    set: Seq<ItemView>,
    timestamp: i64,
    measurement: Seq<char>,
)
    requires
        cache.valid(),
    ensures
        ({
            let after = cache.recorded(uid, equipment_tag, set, timestamp, measurement);
            &&& model::known_uid(after.uids, uid)
            &&& model::uid_place(after.uids, uid) == if model::known_uid(cache.uids, uid) {
                model::uid_place(cache.uids, uid)
            } else {
                cache.uids.len() as int
            }
        }),
{
    let after = cache.recorded(uid, equipment_tag, set, timestamp, measurement);
    invariants::law_recorded_valid(cache, uid, equipment_tag, set, timestamp, measurement);
    let i = if model::known_uid(cache.uids, uid) {
        model::uid_place(cache.uids, uid)
    } else {
        cache.uids.len() as int
    };
    assert(after.uids[i].uid == uid);
    let j = model::uid_place(after.uids, uid);
    assert(after.uids[j].uid == uid);
}

/// After a line was recorded, its uid is known, and each of its fields holds the last value that
/// the line gave it.
pub proof fn law_read_back(
    cache: CacheView,
    uid: Seq<char>,
    equipment_tag: Option<Seq<char>>,
    set: Seq<ItemView>,
    timestamp: i64,
    measurement: Seq<char>,
    k: int,
)
    requires
        cache.valid(),
        0 <= k < set.len(),
        forall|j: int| k < j < set.len() ==> (#[trigger] set[j]).0 != set[k].0,
    ensures
        ({
            let after = cache.recorded(uid, equipment_tag, set, timestamp, measurement);
            &&& model::known_uid(after.uids, uid)
            &&& holds(
                after.uids[model::uid_place(after.uids, uid)].fields,
                set[k].0,
                measurement,
                set[k].1,
            )
        }),
{
    lemma_recorded_place(cache, uid, equipment_tag, set, timestamp, measurement);
    if model::known_uid(cache.uids, uid) {
        let i = model::uid_place(cache.uids, uid);
        invariants::lemma_uid_fields_within(cache, i);
        lemma_values_read_back(
            cache.uids[i].fields,
            set,
            measurement,
            timestamp,
            cache.fields_seen_count,
            cache.first_value_ts,
            cache.uids[i].last_seen_ts,
            k,
        );
    } else {
        lemma_first_values_read_back(set, measurement, timestamp, k);
    }
}

/// A line changes no uid but its own: the others stay where they are and as they are.
pub proof fn law_other_uids_stay(
    cache: CacheView,
    uid: Seq<char>,
    equipment_tag: Option<Seq<char>>,
    set: Seq<ItemView>,
    timestamp: i64,
    measurement: Seq<char>,
    i: int,
)
    requires
        cache.valid(),
        0 <= i < cache.uids.len(),
        cache.uids[i].uid != uid,
    ensures
        cache.recorded(uid, equipment_tag, set, timestamp, measurement).uids[i] == cache.uids[i],
{
    if model::known_uid(cache.uids, uid) {
        let j = model::uid_place(cache.uids, uid);
        assert(cache.uids[j].uid == uid);
    }
}

pub proof fn lemma_other_fields_stay(
    fields: Seq<FieldView>,
    set: Seq<ItemView>,
    measurement: Seq<char>,
    timestamp: i64,
    i: int,
)
    requires
        0 <= i < fields.len(),
        fields[i].measurement != measurement || forall|k: int|
            0 <= k < set.len() ==> (#[trigger] set[k]).0 != fields[i].name,
    ensures
        model::with_values(fields, set, measurement, timestamp).len() >= fields.len(),
        model::with_values(fields, set, measurement, timestamp)[i] == fields[i],
    decreases set.len(),
{
    if set.len() > 0 {
        let t = set.drop_last();
        assert(fields[i].measurement != measurement || forall|k: int|
            0 <= k < t.len() ==> (#[trigger] t[k]).0 != fields[i].name) by {
            if fields[i].measurement == measurement {
                assert forall|k: int| 0 <= k < t.len() implies (#[trigger] t[k]).0
                    != fields[i].name by {
                    assert(set[k].0 != fields[i].name);
                }
            }
        }
        lemma_other_fields_stay(fields, t, measurement, timestamp, i);
        let before = model::with_values(fields, t, measurement, timestamp);
        assert(set.last() == set[set.len() - 1]);
        if model::known_field(before, set.last().0, measurement) {
            let j = model::field_place(before, set.last().0, measurement);
            assert(before[j].is(set.last().0, measurement));
        }
    }
}

/// A line for a known uid changes no field that it does not name, nor the uid's equipment tag and
/// the time it was first seen.
pub proof fn law_other_fields_stay(
    cache: CacheView,
    uid: Seq<char>,
    equipment_tag: Option<Seq<char>>,
    set: Seq<ItemView>,
    timestamp: i64,
    measurement: Seq<char>,
    k: int,
)
    requires
        cache.valid(),
        model::known_uid(cache.uids, uid),
        ({
            let fields = cache.uids[model::uid_place(cache.uids, uid)].fields;
            &&& 0 <= k < fields.len()
            &&& fields[k].measurement != measurement || forall|j: int|
                0 <= j < set.len() ==> (#[trigger] set[j]).0 != fields[k].name
        }),
    ensures
        ({
            let i = model::uid_place(cache.uids, uid);
            let after = cache.recorded(uid, equipment_tag, set, timestamp, measurement);
            &&& after.uids[i].fields[k] == cache.uids[i].fields[k]
            &&& after.uids[i].equipment_tag == cache.uids[i].equipment_tag
            &&& after.uids[i].first_seen_ts == cache.uids[i].first_seen_ts
        }),
{
    let i = model::uid_place(cache.uids, uid);
    lemma_other_fields_stay(cache.uids[i].fields, set, measurement, timestamp, k);
}

// ---------------------------------------------------------------- accounts

/// In every cache, each value that was seen is accounted for exactly once: as initial, changed,
/// timed out or suppressed; and the values that changed are those that were sent as changed.
pub proof fn law_accounts(cache: CacheView)
    requires
        cache.valid(),
    ensures
        cache.fields_seen_count == cache.fields_sent_initial_count
            + cache.fields_sent_changed_count + cache.fields_sent_timeout_count
            + cache.fields_sent_suppressed_count,
        cache.fields_changed_count == cache.fields_sent_changed_count,
{
}

/// After a value was sent, the same value is held back for a minute, and sent again then. A NaN is
/// not the same as itself and is always sent.
pub proof fn law_same_value_held_back(f: FieldView, value: ValueView, sent: i64, next: i64)
    requires
        f.sending(value, sent) != Sending::Suppressed,
    ensures
        f.updated(value, sent).last_sent_ts == sent,
        value.same(value) && next < sent + 60 ==> f.updated(value, sent).sending(value, next)
            == Sending::Suppressed,
        value.same(value) && next >= sent + 60 ==> f.updated(value, sent).sending(value, next)
            == Sending::Timeout,
        !value.same(value) ==> f.updated(value, sent).sending(value, next) == Sending::Changed,
{
}

/// After the first value of a field, the same value is held back for a minute, and sent again then.
pub proof fn law_first_value_held_back(
    name: Seq<char>,
    measurement: Seq<char>,
    value: ValueView,
    first: i64,
    next: i64,
)
    requires
        value.same(value),
    ensures
        FieldView::fresh(name, measurement, value, first).sending(value, next) == (if next < first
            + 60 {
            Sending::Suppressed
        } else {
            Sending::Timeout
        }),
{
}

/// A value that is held back leaves the field's last change and last sending as they were.
pub proof fn law_held_back_unsent(f: FieldView, value: ValueView, timestamp: i64)
    requires
        f.sending(value, timestamp) == Sending::Suppressed,
    ensures
        f.updated(value, timestamp).last_sent_ts == f.last_sent_ts,
        f.updated(value, timestamp).last_changed_ts == f.last_changed_ts,
        f.updated(value, timestamp).changed_count == f.changed_count,
        f.updated(value, timestamp).seen_count == f.seen_count + 1,
{
}

/// Being the same is symmetric, and every value but a NaN is the same as itself.
pub proof fn law_same(a: ValueView, b: ValueView)
    ensures
        a.same(b) == b.same(a),
        a.same(a) <==> !(a matches ValueView::F64(bits) && crate::value::is_nan(bits)),
{
}

/// The timestamps that are kept are the last five of all that were pushed.
pub proof fn law_last_five(all: Seq<i64>, next: i64)
    ensures
        stats_utils::recent(stats_utils::recent(all).push(next)) == stats_utils::recent(
            all.push(next),
        ),
        stats_utils::recent(all).len() <= 5,
        stats_utils::recent(all.push(next)).last() == next,
{
    assert(stats_utils::recent(stats_utils::recent(all).push(next)) =~= stats_utils::recent(
        all.push(next),
    ));
}

// ---------------------------------------------------------------- inactivity

/// What is inactive stays so as time passes without a value, and was so under every shorter
/// addition.
pub proof fn law_inactive_grows(u: UidView, added: int, now: int, less: int, then: int)
    requires
        less <= added,
        now <= then,
    ensures
        forall|k: int|
            0 <= k < u.fields.len() && (#[trigger] u.fields[k]).inactive(added, now)
                ==> u.fields[k].inactive(less, then),
        u.inactive(added, now) ==> u.inactive(less, then),
{
    assert forall|k: int|
        0 <= k < u.fields.len() && (#[trigger] u.fields[k]).inactive(
            added,
            now,
        ) implies u.fields[k].inactive(less, then) by {}
}

/// After a removal nothing is inactive: no uid that stays, and no field of one.
pub proof fn law_nothing_inactive_stays(cache: CacheView, added: int, now: int)
    ensures
        forall|i: int|
            0 <= i < cache.pruned(added, now).uids.len() ==> !(
            #[trigger] cache.pruned(added, now).uids[i]).inactive(added, now),
        forall|i: int, k: int|
            0 <= i < cache.pruned(added, now).uids.len() && 0 <= k < cache.pruned(
                added,
                now,
            ).uids[i].fields.len() ==> !(#[trigger] cache.pruned(added, now).uids[i].fields[k])
                .inactive(added, now),
        cache.pruned(added, now).uids_inactive(added, now) == 0,
        cache.pruned(added, now).fields_of_inactive_uids(added, now) == 0,
        cache.pruned(added, now).inactive_fields_of_active_uids(added, now) == 0,
        cache.pruned(added, now).fields_inactive(added, now) == 0,
{
    let after = cache.pruned(added, now);
    assert forall|i: int| 0 <= i < after.uids.len() implies !(#[trigger] after.uids[i]).inactive(
        added,
        now,
    ) && forall|k: int|
        0 <= k < after.uids[i].fields.len() ==> !(#[trigger] after.uids[i].fields[k]).inactive(
            added,
            now,
        ) by {
        lemma_pruned_uid_active(cache, added, now, i);
    }
    fold::lemma_count_none(after.uids, model::inactive_uid(added, now));
    lemma_no_inactive_totals(after.uids, added, now);
}

proof fn lemma_pruned_uid_active(cache: CacheView, added: int, now: int, i: int)
    requires
        0 <= i < cache.pruned(added, now).uids.len(),
    ensures
        !cache.pruned(added, now).uids[i].inactive(added, now),
        forall|k: int|
            0 <= k < cache.pruned(added, now).uids[i].fields.len() ==> !(
            #[trigger] cache.pruned(added, now).uids[i].fields[k]).inactive(added, now),
{
    let after = cache.pruned(added, now);
    let p = model::active_field(added, now);
    invariants::lemma_pruned_uid(cache, added, now, i);
    let j = choose|j: int|
        0 <= j < cache.uids.len() && !cache.uids[j].inactive(added, now) && after.uids[i] == (
        #[trigger] cache.uids[j]).pruned(added, now);
    let fields = cache.uids[j].fields;
    assert forall|k: int| 0 <= k < fields.filter(p).len() implies !(
    #[trigger] fields.filter(p)[k]).inactive(added, now) by {
        fields.lemma_filter_pred(p, k);
    }
    let m = choose|m: int| 0 <= m < fields.len() && !(#[trigger] fields[m]).inactive(added, now);
    assert(p(fields[m]));
    fields.lemma_filter_contains(p, m);
    assert(fields.filter(p).contains(fields[m]));
    let n = choose|n: int| 0 <= n < fields.filter(p).len() && fields.filter(p)[n] == fields[m];
    assert(!after.uids[i].fields[n].inactive(added, now));
}

proof fn lemma_no_inactive_totals(uids: Seq<UidView>, added: int, now: int)
    requires
        forall|i: int| 0 <= i < uids.len() ==> !(#[trigger] uids[i]).inactive(added, now),
        forall|i: int, k: int|
            0 <= i < uids.len() && 0 <= k < uids[i].fields.len() ==> !(
            #[trigger] uids[i].fields[k]).inactive(added, now),
    ensures
        fold::total(uids, model::fields_of_inactive(added, now)) == 0,
        fold::total(
            uids,
            model::fields_where(
                model::active_uid(added, now),
                model::inactive_field(added, now),
            ),
        ) == 0,
        fold::total(
            uids,
            model::fields_where(model::repeated_uid(), model::inactive_field(added, now)),
        ) == 0,
    decreases uids.len(),
{
    if uids.len() > 0 {
        let t = uids.drop_last();
        assert forall|i: int| 0 <= i < t.len() implies !(#[trigger] t[i]).inactive(added, now) by {
            assert(t[i] == uids[i]);
        }
        assert forall|i: int, k: int|
            0 <= i < t.len() && 0 <= k < t[i].fields.len() implies !(
        #[trigger] t[i].fields[k]).inactive(added, now) by {
            assert(!uids[i].fields[k].inactive(added, now));
        }
        lemma_no_inactive_totals(t, added, now);
        let last = uids[uids.len() - 1];
        assert(!last.inactive(added, now));
        assert forall|k: int| 0 <= k < last.fields.len() implies !model::inactive_field(
            added,
            now,
        )(#[trigger] last.fields[k]) by {
            assert(!uids[uids.len() - 1].fields[k].inactive(added, now));
        }
        fold::lemma_count_none(last.fields, model::inactive_field(added, now));
    }
}

// ---------------------------------------------------------------- removal

proof fn lemma_split<T>(s: Seq<T>, p: spec_fn(T) -> bool, q: spec_fn(T) -> bool)
    requires
        forall|x: T| #[trigger] p(x) != q(x),
    ensures
        s.filter(p).len() + fold::count(s, q) == s.len(),
    decreases s.len(),
{
    reveal(Seq::filter);
    if s.len() > 0 {
        lemma_split(s.drop_last(), p, q);
        assert(p(s.last()) != q(s.last()));
    }
}

proof fn lemma_pruned_counts(uids: Seq<UidView>, added: int, now: int)
    ensures
        fold::total(uids, model::field_number()) == fold::total(
            uids.filter(model::active_uid(added, now)).map_values(model::pruned_uid(added, now)),
            model::field_number(),
        ) + fold::total(uids, model::fields_of_inactive(added, now)) + fold::total(
            uids,
            model::fields_where(
                model::active_uid(added, now),
                model::inactive_field(added, now),
            ),
        ),
    decreases uids.len(),
{
    reveal(Seq::filter);
    let p = model::active_uid(added, now);
    let g = model::pruned_uid(added, now);
    if uids.len() > 0 {
        let t = uids.drop_last();
        let u = uids.last();
        lemma_pruned_counts(t, added, now);
        if p(u) {
            assert(uids.filter(p).map_values(g) =~= t.filter(p).map_values(g).push(g(u)));
            fold::lemma_total_push(t.filter(p).map_values(g), g(u), model::field_number());
            lemma_split(
                u.fields,
                model::active_field(added, now),
                model::inactive_field(added, now),
            );
        }
    } else {
        assert(uids.filter(p).map_values(g) =~= Seq::<UidView>::empty());
    }
}

/// What a removal tells adds up: the uids that were there are those that stay and those that are
/// told of, and so are the fields.
pub proof fn law_removal_counts(cache: CacheView, added: int, now: int)
    ensures
        cache.uids.len() == cache.pruned(added, now).uids.len() + cache.uids_inactive(added, now),
        cache.field_total() == cache.pruned(added, now).field_total()
            + cache.fields_of_inactive_uids(added, now) + cache.inactive_fields_of_active_uids(
            added,
            now,
        ),
{
    lemma_split(cache.uids, model::active_uid(added, now), model::inactive_uid(added, now));
    lemma_pruned_counts(cache.uids, added, now);
}

proof fn lemma_filter_all<T>(s: Seq<T>, p: spec_fn(T) -> bool)
    requires
        forall|i: int| 0 <= i < s.len() ==> p(#[trigger] s[i]),
    ensures
        s.filter(p) == s,
    decreases s.len(),
{
    reveal(Seq::filter);
    if s.len() > 0 {
        let t = s.drop_last();
        assert forall|i: int| 0 <= i < t.len() implies p(#[trigger] t[i]) by {
            assert(t[i] == s[i]);
        }
        lemma_filter_all(t, p);
        assert(p(s[s.len() - 1]));
        assert(s =~= t.push(s.last()));
    } else {
        assert(s.filter(p) =~= s);
    }
}

/// A second removal at the same time removes nothing.
pub proof fn law_removal_idempotent(cache: CacheView, added: int, now: int)
    ensures
        cache.pruned(added, now).pruned(added, now) == cache.pruned(added, now),
{
    let after = cache.pruned(added, now);
    law_nothing_inactive_stays(cache, added, now);
    lemma_filter_all(after.uids, model::active_uid(added, now));
    assert forall|i: int| 0 <= i < after.uids.len() implies (#[trigger] after.uids[i]).pruned(
        added,
        now,
    ) == after.uids[i] by {
        assert forall|k: int| 0 <= k < after.uids[i].fields.len() implies model::active_field(
            added,
            now,
        )(#[trigger] after.uids[i].fields[k]) by {}
        lemma_filter_all(after.uids[i].fields, model::active_field(added, now));
    }
    assert(after.uids.map_values(model::pruned_uid(added, now)) =~= after.uids);
}

/// A removal keeps every uid that is not inactive, with every field that is not.
pub proof fn law_active_stay(cache: CacheView, added: int, now: int, i: int, k: int)
    requires
        0 <= i < cache.uids.len(),
        0 <= k < cache.uids[i].fields.len(),
        !cache.uids[i].fields[k].inactive(added, now),
    ensures
        exists|j: int|
            0 <= j < cache.pruned(added, now).uids.len() && (#[trigger] cache.pruned(
                added,
                now,
            ).uids[j]).uid == cache.uids[i].uid && cache.pruned(added, now).uids[j].fields.contains(
                cache.uids[i].fields[k],
            ),
{
    let u = cache.uids[i];
    let p = model::active_uid(added, now);
    let q = model::active_field(added, now);
    let kept = cache.uids.filter(p);
    assert(p(u));
    cache.uids.lemma_filter_contains(p, i);
    let j = choose|j: int| 0 <= j < kept.len() && kept[j] == u;
    assert(cache.pruned(added, now).uids[j] == u.pruned(added, now));
    assert(q(u.fields[k]));
    u.fields.lemma_filter_contains(q, k);
}

/// A request to remove one uid that is refused changes nothing. One that is met takes that uid
/// out and leaves the others as they are.
pub proof fn law_removal_answered(
    before: CacheView,
    after: CacheView,
    uid: Seq<char>,
    added: int,
    now: int,
    answer: Result<(), String>,
)
    requires
        before.valid(),
        cache::removal_answer(before, after, uid, added, now, answer),
    ensures
        answer is Err ==> after == before,
        answer is Ok ==> !model::known_uid(after.uids, uid) && after.uids.len() + 1
            == before.uids.len(),
        forall|i: int|
            0 <= i < before.uids.len() && (#[trigger] before.uids[i]).uid != uid
                ==> after.uids.contains(before.uids[i]),
{
    if answer is Ok {
        let at = model::uid_place(before.uids, uid);
        assert(before.uids[at].uid == uid);
        assert forall|i: int|
            0 <= i < before.uids.len() && (
            #[trigger] before.uids[i]).uid != uid implies after.uids.contains(before.uids[i]) by {
            let j = if i < at {
                i
            } else {
                i - 1
            };
            assert(after.uids[j] == before.uids[i]);
        }
        if model::known_uid(after.uids, uid) {
            let j = model::uid_place(after.uids, uid);
            let i = if j < at {
                j
            } else {
                j + 1
            };
            assert(before.uids[i].uid == before.uids[at].uid);
        }
    }
}

// ---------------------------------------------------------------- the report on what is inactive

proof fn lemma_concat_empty<T, U>(s: Seq<T>, f: spec_fn(T) -> Seq<U>)
    ensures
        fold::concat(s, f).len() == 0 <==> forall|i: int|
            0 <= i < s.len() ==> f(#[trigger] s[i]).len() == 0,
    decreases s.len(),
{
    if s.len() > 0 {
        let t = s.drop_last();
        lemma_concat_empty(t, f);
        assert(s.last() == s[s.len() - 1]);
        if fold::concat(s, f).len() == 0 {
            assert forall|i: int| 0 <= i < s.len() implies f(#[trigger] s[i]).len() == 0 by {
                if i < t.len() {
                    assert(t[i] == s[i]);
                }
            }
        }
        if forall|i: int| 0 <= i < s.len() ==> f(#[trigger] s[i]).len() == 0 {
            assert forall|i: int| 0 <= i < t.len() implies f(#[trigger] t[i]).len() == 0 by {
                assert(t[i] == s[i]);
            }
        }
    }
}

proof fn lemma_inactive_text_empty(u: UidView, added: int, now: int)
    ensures
        u.inactive_text(added, now).len() == 0 <==> !u.inactive(added, now) && forall|k: int|
            0 <= k < u.fields.len() ==> !(#[trigger] u.fields[k]).inactive(added, now),
{
    broadcast use vstd::seq_lib::group_to_multiset_ensures;

    reveal_strlit("\n");
    let q = model::inactive_field(added, now);
    let silent = u.fields.filter(q);
    order::law_key_order(silent);
    assert(silent.to_multiset().len() == silent.len());
    assert(order::key_order(silent).to_multiset().len() == order::key_order(silent).len());
    if silent.len() == 0 {
        assert forall|k: int| 0 <= k < u.fields.len() implies !(
        #[trigger] u.fields[k]).inactive(added, now) by {
            if q(u.fields[k]) {
                u.fields.lemma_filter_contains(q, k);
            }
        }
    } else {
        u.fields.lemma_filter_pred(q, 0);
        u.fields.lemma_filter_contains_rev(q, silent[0]);
        let k = choose|k: int| 0 <= k < u.fields.len() && u.fields[k] == silent[0];
        assert(u.fields[k].inactive(added, now));
    }
}

/// The report on what is inactive is empty exactly where no uid and no field is.
pub proof fn law_inactive_report(cache: CacheView, added: int, now: int)
    ensures
        cache.inactive_text(added, now).len() == 0 <==> forall|i: int|
            0 <= i < cache.uids.len() ==> !(#[trigger] cache.uids[i]).inactive(added, now)
                && forall|k: int|
                0 <= k < cache.uids[i].fields.len() ==> !(
                #[trigger] cache.uids[i].fields[k]).inactive(added, now),
{
    let f = reports::uid_inactive_text(added, now);
    lemma_concat_empty(cache.uids, f);
    assert forall|i: int| 0 <= i < cache.uids.len() implies (f(#[trigger] cache.uids[i]).len() == 0
        <==> !cache.uids[i].inactive(added, now) && forall|k: int|
        0 <= k < cache.uids[i].fields.len() ==> !(#[trigger] cache.uids[i].fields[k]).inactive(
            added,
            now,
        )) by {
        lemma_inactive_text_empty(cache.uids[i], added, now);
    }
}

/// After a removal the report on what is inactive is empty.
pub proof fn law_nothing_reported_after_removal(cache: CacheView, added: int, now: int)
    ensures
        cache.pruned(added, now).inactive_text(added, now).len() == 0,
{
    law_nothing_inactive_stays(cache, added, now);
    law_inactive_report(cache.pruned(added, now), added, now);
}

// ---------------------------------------------------------------- counts

/// Every uid was either seen in the last `seconds` seconds or has been silent for longer.
pub proof fn law_seen_or_silent(cache: CacheView, seconds: int, now: int)
    ensures
        cache.uids_seen(seconds, now) + cache.uids_silent(seconds, now) == cache.uids.len(),
{
    lemma_seen_or_silent(cache.uids, seconds, now);
}

proof fn lemma_seen_or_silent(uids: Seq<UidView>, seconds: int, now: int)
    ensures
        fold::count(uids, model::uid_seen_since(now - seconds)) + fold::count(
            uids,
            model::silent_uid(seconds, now),
        ) == uids.len(),
    decreases uids.len(),
{
    if uids.len() > 0 {
        lemma_seen_or_silent(uids.drop_last(), seconds, now);
    }
}

/// What is counted is among what there is.
pub proof fn law_counts_bounded(cache: CacheView, seconds: int, added: int, now: int)
    ensures
        cache.uids_seen(seconds, now) <= cache.uids.len(),
        cache.uids_silent(added, now) <= cache.uids.len(),
        cache.uids_inactive(added, now) <= cache.uids.len(),
        0 <= cache.fields_seen(seconds, now) <= cache.field_total(),
        0 <= cache.fields_changed(seconds, now) <= cache.field_total(),
        0 <= cache.fields_inactive(added, now) <= cache.field_total(),
        cache.field_names().len() == cache.field_total(),
        cache.field_names().to_set().len() <= cache.field_total(),
{
    fold::lemma_count_bound(cache.uids, model::uid_seen_since(now - seconds));
    fold::lemma_count_bound(cache.uids, model::silent_uid(added, now));
    fold::lemma_count_bound(cache.uids, model::inactive_uid(added, now));
    activity::lemma_fields_where_bound(
        cache.uids,
        model::uid_seen_since(now - seconds),
        model::field_seen_since(now - seconds),
    );
    activity::lemma_fields_where_bound(
        cache.uids,
        model::any_uid(),
        model::field_changed_since(now - seconds),
    );
    activity::lemma_fields_where_bound(
        cache.uids,
        model::repeated_uid(),
        model::inactive_field(added, now),
    );
    lemma_name_number(cache.uids);
    cache.field_names().lemma_cardinality_of_set();
}

proof fn lemma_name_number(uids: Seq<UidView>)
    ensures
        fold::concat(uids, model::names_of()).len() == fold::total(uids, model::field_number()),
    decreases uids.len(),
{
    if uids.len() > 0 {
        lemma_name_number(uids.drop_last());
    }
}

/// Over a longer time no less is counted.
pub proof fn law_counts_grow(cache: CacheView, seconds: int, more: int, now: int)
    requires
        seconds <= more,
    ensures
        cache.uids_seen(seconds, now) <= cache.uids_seen(more, now),
        cache.fields_seen(seconds, now) <= cache.fields_seen(more, now),
        cache.fields_changed(seconds, now) <= cache.fields_changed(more, now),
{
    fold::lemma_count_le(
        cache.uids,
        model::uid_seen_since(now - seconds),
        model::uid_seen_since(now - more),
    );
    lemma_fields_grow(
        cache.uids,
        model::uid_seen_since(now - seconds),
        model::uid_seen_since(now - more),
        model::field_seen_since(now - seconds),
        model::field_seen_since(now - more),
    );
    lemma_fields_grow(
        cache.uids,
        model::any_uid(),
        model::any_uid(),
        model::field_changed_since(now - seconds),
        model::field_changed_since(now - more),
    );
}

proof fn lemma_fields_grow(
    uids: Seq<UidView>,
    q: spec_fn(UidView) -> bool,
    wider_q: spec_fn(UidView) -> bool,
    p: spec_fn(FieldView) -> bool,
    wider_p: spec_fn(FieldView) -> bool,
)
    requires
        forall|u: UidView| #[trigger] q(u) ==> wider_q(u),
        forall|f: FieldView| #[trigger] p(f) ==> wider_p(f),
    ensures
        fold::total(uids, model::fields_where(q, p)) <= fold::total(
            uids,
            model::fields_where(wider_q, wider_p),
        ),
    decreases uids.len(),
{
    if uids.len() > 0 {
        let u = uids.last();
        lemma_fields_grow(uids.drop_last(), q, wider_q, p, wider_p);
        fold::lemma_count_le(u.fields, p, wider_p);
        assert(q(u) ==> wider_q(u));
    }
}

/// The average age lies between the least and the greatest.
pub proof fn law_ages(cache: CacheView, now: int)
    ensures
        cache.ages(now).min <= cache.ages(now).average <= cache.ages(now).max,
{
    if cache.uids.len() > 0 {
        let n = cache.uids.len() as int;
        let sum = fold::total(cache.uids, model::age_at(now));
        let min = model::least_age(cache.uids, now);
        let max = model::greatest_age(cache.uids, now);
        lemma_age_sum(cache.uids, now);
        assert(min <= arith::quotient(sum, n) <= max) by (nonlinear_arith)
            requires
                n > 0,
                n * min <= sum <= n * max,
                max >= 0,
        ;
    }
}

proof fn lemma_age_sum(uids: Seq<UidView>, now: int)
    requires
        uids.len() > 0,
    ensures
        uids.len() * model::least_age(uids, now) <= fold::total(uids, model::age_at(now))
            <= uids.len() * model::greatest_age(uids, now),
        model::greatest_age(uids, now) >= 0,
    decreases uids.len(),
{
    let t = uids.drop_last();
    let age = now - uids.last().last_seen_ts;
    if t.len() > 0 {
        lemma_age_sum(t, now);
        let m = t.len() as int;
        let least = model::least_age(t, now);
        let greatest = model::greatest_age(t, now);
        let sum = fold::total(t, model::age_at(now));
        let min = model::least_age(uids, now);
        let max = model::greatest_age(uids, now);
        assert((m + 1) * min <= sum + age <= (m + 1) * max) by (nonlinear_arith)
            requires
                m > 0,
                m * least <= sum <= m * greatest,
                min <= least,
                min <= age,
                greatest <= max,
                age <= max,
        ;
    } else {
        assert(fold::total(t, model::age_at(now)) == 0);
        assert(model::greatest_age(t, now) == 0);
    }
}

// ---------------------------------------------------------------- statistics

/// There are statistics as soon as a line was recorded, and none before.
pub proof fn law_statistics(
    cache: CacheView,
    uid: Seq<char>,
    equipment_tag: Option<Seq<char>>,
    set: Seq<ItemView>,
    timestamp: i64,
    measurement: Seq<char>,
    host: Option<Seq<char>>,
    now: int,
)
    requires
        cache.valid(),
    ensures
        cache.stats(host, now) == (if cache.first_value_ts == i64::MAX && cache.last_value_ts
            == i64::MIN {
            "Not enough data collected"@
        } else {
            cache.stats_line(host, now)
        }),
        ({
            let after = cache.recorded(uid, equipment_tag, set, timestamp, measurement);
            after.stats(host, now) == after.stats_line(host, now)
        }),
{
}

// ---------------------------------------------------------------- messages

/// The lines of a message keep the cache valid and leave the count of messages as it is; the count
/// of lines grows by those that were recorded.
pub proof fn law_lines(
    cache: CacheView,
    lines: Seq<Result<LineView, Seq<char>>>,
    fallback: i64,
)
    requires
        cache.valid(),
    ensures
        consumer::after_lines(cache, lines, fallback).valid(),
        consumer::after_lines(cache, lines, fallback).kafka_message_count
            == cache.kafka_message_count,
        consumer::after_lines(cache, lines, fallback).ilp_line_count == cache.ilp_line_count
            + fold::count(
            consumer::line_outcomes(cache, lines, fallback),
            |o: OutcomeView| o is Recorded,
        ),
    decreases lines.len(),
{
    let is_recorded = |o: OutcomeView| o is Recorded;
    let outcomes = consumer::line_outcomes(cache, lines, fallback);
    if lines.len() > 0 {
        let t = lines.drop_last();
        let before = consumer::after_lines(cache, t, fallback);
        law_lines(cache, t, fallback);
        assert(outcomes.drop_last() =~= consumer::line_outcomes(cache, t, fallback)) by {
            assert forall|i: int| 0 <= i < t.len() implies lines.take(i) == #[trigger] t.take(
                i,
            ) by {
                assert(lines.take(i) =~= t.take(i));
            }
        }
        assert(lines.take(lines.len() - 1) =~= t);
        assert(outcomes.last() == consumer::line_outcome(before, lines.last()));
        if consumer::line_outcome(before, lines.last()) is Recorded {
            let l = lines.last()->Ok_0;
            let tags = l.tags->0;
            invariants::law_recorded_valid(
                before,
                consumer::tag_value(tags, "uid"@)->0,
                consumer::tag_value(tags, "Equipment-tag"@),
                l.fields,
                match l.timestamp {
                    Some(t) => t,
                    None => fallback,
                },
                l.measurement,
            );
        }
    }
}

/// After a line of a message was recorded, each of its fields holds the last value that the line
/// gave it, under the uid of its tags.
pub proof fn law_line_read_back(
    cache: CacheView,
    line: Result<LineView, Seq<char>>,
    fallback: i64,
    k: int,
)
    requires
        cache.valid(),
        consumer::line_outcome(cache, line) is Recorded,
        ({
            let set = line->Ok_0.fields;
            &&& 0 <= k < set.len()
            &&& forall|j: int| k < j < set.len() ==> (#[trigger] set[j]).0 != set[k].0
        }),
    ensures
        ({
            let after = consumer::after_line(cache, line, fallback);
            let l = line->Ok_0;
            let uid = consumer::tag_value(l.tags->0, "uid"@)->0;
            &&& model::known_uid(after.uids, uid)
            &&& holds(
                after.uids[model::uid_place(after.uids, uid)].fields,
                l.fields[k].0,
                l.measurement,
                l.fields[k].1,
            )
        }),
{
    let l = line->Ok_0;
    let tags = l.tags->0;
    law_read_back(
        cache,
        consumer::tag_value(tags, "uid"@)->0,
        consumer::tag_value(tags, "Equipment-tag"@),
        l.fields,
        match l.timestamp {
            Some(t) => t,
            None => fallback,
        },
        l.measurement,
        k,
    );
}

/// It is the same whether lines come in one message or, at one time, in two behind each other.
pub proof fn law_lines_one_behind_the_other(
    cache: CacheView,
    first: Seq<Result<LineView, Seq<char>>>,
    second: Seq<Result<LineView, Seq<char>>>,
    fallback: i64,
)
    ensures
        consumer::after_lines(cache, first + second, fallback) == consumer::after_lines(
            consumer::after_lines(cache, first, fallback),
            second,
            fallback,
        ),
    decreases second.len(),
{
    if second.len() == 0 {
        assert(first + second =~= first);
    } else {
        assert((first + second).drop_last() =~= first + second.drop_last());
        law_lines_one_behind_the_other(cache, first, second.drop_last(), fallback);
    }
}

/// A line that is not recorded leaves the cache as it is: one that is no line, one without tags,
/// and one without a uid tag.
pub proof fn law_skipped_line(
    cache: CacheView,
    line: Result<LineView, Seq<char>>,
    fallback: i64,
)
    requires
        line is Err || line->Ok_0.tags is None || consumer::tag_value(
            line->Ok_0.tags->0,
            "uid"@,
        ) is None,
    ensures
        consumer::after_line(cache, line, fallback) == cache,
{
}

} // verus!
