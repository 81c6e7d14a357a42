//! What every operation keeps.

use vstd::prelude::*;

use crate::fold;
use crate::model;
use crate::model::{CacheView, FieldView, ItemView, Sending, UidView};

verus! {

// ---------------------------------------------------------------- fields

/// The fields are distinct and valid, were seen at most `seen` times, and all their timestamps lie
/// between `oldest` and `newest`.
pub open spec fn fields_within(
    fields: Seq<FieldView>,
    seen: nat,
    oldest: i64,
    newest: i64,
) -> bool {
    &&& model::distinct_fields(fields)
    &&& forall|k: int|
        0 <= k < fields.len() ==> (#[trigger] fields[k]).valid() && fields[k].seen_count <= seen
            && oldest <= fields[k].first_seen_ts && fields[k].last_seen_ts <= newest
}

proof fn lemma_field_updated(f: FieldView, item: ItemView, timestamp: i64)
    requires
        f.valid(),
    ensures
        f.updated(item.1, timestamp).valid(),
{
}

proof fn lemma_with_value(
    fields: Seq<FieldView>,
    item: ItemView,
    measurement: Seq<char>,
    timestamp: i64,
    seen: nat,
    oldest: i64,
    newest: i64,
)
    requires
        fields_within(fields, seen, oldest, newest),
    ensures
        fields_within(
            model::with_value(fields, item, measurement, timestamp),
            seen + 1,
            model::earlier(oldest, timestamp),
            model::later(newest, timestamp),
        ),
        model::with_value(fields, item, measurement, timestamp).len() == fields.len() + if (
        model::sending_of(fields, item, measurement, timestamp) is Initial) {
            1int
        } else {
            0int
        },
{
    let after = model::with_value(fields, item, measurement, timestamp);
    if model::known_field(fields, item.0, measurement) {
        let i = model::field_place(fields, item.0, measurement);
        lemma_field_updated(fields[i], item, timestamp);
        assert forall|a: int, b: int|
            0 <= a < after.len() && 0 <= b < after.len() && (#[trigger] after[a]).is(
                (#[trigger] after[b]).name,
                after[b].measurement,
            ) implies a == b by {
            assert(fields[a].is(fields[b].name, fields[b].measurement));
        }
        assert forall|k: int| 0 <= k < after.len() implies (#[trigger] after[k]).valid()
            && after[k].seen_count <= seen + 1 && model::earlier(oldest, timestamp)
            <= after[k].first_seen_ts && after[k].last_seen_ts <= model::later(
            newest,
            timestamp,
        ) by {
            assert(fields[k].valid());
        }
    } else {
        assert forall|a: int, b: int|
            0 <= a < after.len() && 0 <= b < after.len() && (#[trigger] after[a]).is(
                (#[trigger] after[b]).name,
                after[b].measurement,
            ) implies a == b by {
            if a < fields.len() && b < fields.len() {
                assert(fields[a].is(fields[b].name, fields[b].measurement));
            } else if a < fields.len() {
                assert(fields[a].is(item.0, measurement));
            } else if b < fields.len() {
                assert(fields[b].is(item.0, measurement));
            }
        }
        assert forall|k: int| 0 <= k < after.len() implies (#[trigger] after[k]).valid()
            && after[k].seen_count <= seen + 1 && model::earlier(oldest, timestamp)
            <= after[k].first_seen_ts && after[k].last_seen_ts <= model::later(
            newest,
            timestamp,
        ) by {
            if k < fields.len() {
                assert(fields[k].valid());
            }
        }
    }
}

/// The values of a line keep the fields distinct and valid, and each of them is accounted for
/// exactly once.
pub proof fn lemma_with_values(
    fields: Seq<FieldView>,
    set: Seq<ItemView>,
    measurement: Seq<char>,
    timestamp: i64,
    seen: nat,
    oldest: i64,
    newest: i64,
)
    requires
        fields_within(fields, seen, oldest, newest),
    ensures
        fields_within(
            model::with_values(fields, set, measurement, timestamp),
            seen + set.len(),
            model::earlier(oldest, timestamp),
            model::later(newest, timestamp),
        ),
        model::with_values(fields, set, measurement, timestamp).len() == fields.len()
            + model::sendings(fields, set, measurement, timestamp, Sending::Initial),
        set.len() == model::sendings(fields, set, measurement, timestamp, Sending::Initial)
            + model::sendings(fields, set, measurement, timestamp, Sending::Changed)
            + model::sendings(fields, set, measurement, timestamp, Sending::Timeout)
            + model::sendings(fields, set, measurement, timestamp, Sending::Suppressed),
    decreases set.len(),
{
    if set.len() > 0 {
        lemma_with_values(
            fields,
            set.drop_last(),
            measurement,
            timestamp,
            seen,
            oldest,
            newest,
        );
        lemma_with_value(
            model::with_values(fields, set.drop_last(), measurement, timestamp),
            set.last(),
            measurement,
            timestamp,
            seen + (set.len() - 1) as nat,
            model::earlier(oldest, timestamp),
            model::later(newest, timestamp),
        );
    }
}

/// The fields that the first line of a uid makes are distinct and valid.
pub proof fn lemma_first_values(set: Seq<ItemView>, measurement: Seq<char>, timestamp: i64)
    ensures
        fields_within(
            model::first_values(set, measurement, timestamp),
            1,
            timestamp,
            timestamp,
        ),
        model::first_values(set, measurement, timestamp).len() <= set.len(),
    decreases set.len(),
{
    if set.len() > 0 {
        let before = model::first_values(set.drop_last(), measurement, timestamp);
        let after = model::first_values(set, measurement, timestamp);
        let name = set.last().0;
        lemma_first_values(set.drop_last(), measurement, timestamp);
        if model::known_field(before, name, measurement) {
            let i = model::field_place(before, name, measurement);
            assert forall|a: int, b: int|
                0 <= a < after.len() && 0 <= b < after.len() && (#[trigger] after[a]).is(
                    (#[trigger] after[b]).name,
                    after[b].measurement,
                ) implies a == b by {
                assert(before[a].is(before[b].name, before[b].measurement));
            }
            assert forall|k: int| 0 <= k < after.len() implies (#[trigger] after[k]).valid()
                && after[k].seen_count <= 1 && timestamp <= after[k].first_seen_ts
                && after[k].last_seen_ts <= timestamp by {
                assert(before[k].valid());
            }
        } else {
            assert forall|a: int, b: int|
                0 <= a < after.len() && 0 <= b < after.len() && (#[trigger] after[a]).is(
                    (#[trigger] after[b]).name,
                    after[b].measurement,
                ) implies a == b by {
                if a < before.len() && b < before.len() {
                    assert(before[a].is(before[b].name, before[b].measurement));
                } else if a < before.len() {
                    assert(before[a].is(name, measurement));
                } else if b < before.len() {
                    assert(before[b].is(name, measurement));
                }
            }
            assert forall|k: int| 0 <= k < after.len() implies (#[trigger] after[k]).valid()
                && after[k].seen_count <= 1 && timestamp <= after[k].first_seen_ts
                && after[k].last_seen_ts <= timestamp by {
                if k < before.len() {
                    assert(before[k].valid());
                }
            }
        }
    }
}

// ---------------------------------------------------------------- the cache

/// A field of a valid cache, as the invariants on fields put it.
pub proof fn lemma_uid_fields_within(cache: CacheView, i: int)
    requires
        cache.valid(),
        0 <= i < cache.uids.len(),
    ensures
        fields_within(
            cache.uids[i].fields,
            cache.fields_seen_count,
            cache.first_value_ts,
            cache.uids[i].last_seen_ts,
        ),
{
    let u = cache.uids[i];
    assert(u.valid());
    assert forall|k: int| 0 <= k < u.fields.len() implies (#[trigger] u.fields[k]).valid()
        && u.fields[k].seen_count <= cache.fields_seen_count && cache.first_value_ts
        <= u.fields[k].first_seen_ts && u.fields[k].last_seen_ts <= u.last_seen_ts by {
        assert(cache.uids[i].fields[k].seen_count <= cache.fields_seen_count);
    }
}

/// The accounts are kept: after a line, each value that was seen is counted once as initial,
/// changed, timed out or suppressed.
proof fn lemma_recorded_accounts(
    cache: CacheView,
    uid: Seq<char>,
    equipment_tag: Option<Seq<char>>,
    set: Seq<ItemView>,
    timestamp: i64,
    measurement: Seq<char>,
)
    requires
        cache.valid(),
    ensures
        ({
            let after = cache.recorded(uid, equipment_tag, set, timestamp, measurement);
            &&& after.fields_seen_count == after.fields_sent_initial_count
                + after.fields_sent_changed_count + after.fields_sent_timeout_count
                + after.fields_sent_suppressed_count
            &&& after.fields_changed_count == after.fields_sent_changed_count
            &&& after.field_total() <= after.fields_seen_count
        }),
{
    let after = cache.recorded(uid, equipment_tag, set, timestamp, measurement);
    let f = model::field_number();
    if model::known_uid(cache.uids, uid) {
        let i = model::uid_place(cache.uids, uid);
        lemma_uid_fields_within(cache, i);
        lemma_with_values(
            cache.uids[i].fields,
            set,
            measurement,
            timestamp,
            cache.fields_seen_count,
            cache.first_value_ts,
            cache.uids[i].last_seen_ts,
        );
        fold::lemma_total_update(
            cache.uids,
            i,
            cache.uids[i].updated(set, timestamp, measurement),
            f,
        );
    } else {
        lemma_first_values(set, measurement, timestamp);
        fold::lemma_total_push(
            cache.uids,
            UidView::fresh(uid, equipment_tag, set, timestamp, measurement),
            f,
        );
    }
}

/// The uid that a line updates or makes is valid, and its numbers stay within the cache's.
proof fn lemma_recorded_uid(
    cache: CacheView,
    uid: Seq<char>,
    equipment_tag: Option<Seq<char>>,
    set: Seq<ItemView>,
    timestamp: i64,
    measurement: Seq<char>,
    i: int,
)
    requires
        cache.valid(),
        0 <= i < cache.recorded(uid, equipment_tag, set, timestamp, measurement).uids.len(),
    ensures
        ({
            let after = cache.recorded(uid, equipment_tag, set, timestamp, measurement);
            let u = after.uids[i];
            &&& u.valid()
            &&& after.first_value_ts <= u.first_seen_ts
            &&& u.last_seen_ts <= after.last_value_ts
            &&& fields_within(
                u.fields,
                after.fields_seen_count,
                after.first_value_ts,
                u.last_seen_ts,
            )
        }),
{
    let after = cache.recorded(uid, equipment_tag, set, timestamp, measurement);
    let u = after.uids[i];
    if i < cache.uids.len() {
        assert(cache.uids[i].valid());
        lemma_uid_fields_within(cache, i);
    }
    if model::known_uid(cache.uids, uid) && i == model::uid_place(cache.uids, uid) {
        lemma_with_values(
            cache.uids[i].fields,
            set,
            measurement,
            timestamp,
            cache.fields_seen_count,
            cache.first_value_ts,
            cache.uids[i].last_seen_ts,
        );
    } else if i < cache.uids.len() {
        assert(u == cache.uids[i]);
        assert forall|k: int| 0 <= k < u.fields.len() implies (#[trigger] u.fields[k]).valid()
            && u.fields[k].seen_count <= after.fields_seen_count && after.first_value_ts
            <= u.fields[k].first_seen_ts && u.fields[k].last_seen_ts <= u.last_seen_ts by {}
    } else {
        lemma_first_values(set, measurement, timestamp);
        assert forall|k: int| 0 <= k < u.fields.len() implies (#[trigger] u.fields[k]).valid()
            && u.fields[k].seen_count <= after.fields_seen_count && after.first_value_ts
            <= u.fields[k].first_seen_ts && u.fields[k].last_seen_ts <= u.last_seen_ts by {}
    }
}

/// Recording a line keeps the cache valid: uids and fields stay distinct, timestamps stay in
/// order, and every value seen is accounted for exactly once.
pub proof fn law_recorded_valid(
    cache: CacheView,
    uid: Seq<char>,
    equipment_tag: Option<Seq<char>>,
    set: Seq<ItemView>,
    timestamp: i64,
    measurement: Seq<char>,
)
    requires
        cache.valid(),
    ensures
        cache.recorded(uid, equipment_tag, set, timestamp, measurement).valid(),
{
    let after = cache.recorded(uid, equipment_tag, set, timestamp, measurement);
    lemma_recorded_accounts(cache, uid, equipment_tag, set, timestamp, measurement);
    assert forall|a: int, b: int|
        0 <= a < after.uids.len() && 0 <= b < after.uids.len() && (#[trigger] after.uids[a]).uid
            == (#[trigger] after.uids[b]).uid implies a == b by {
        if a < cache.uids.len() && b < cache.uids.len() {
            assert(cache.uids[a].uid == cache.uids[b].uid);
        } else if a < cache.uids.len() {
            assert(cache.uids[a].uid == uid);
        } else if b < cache.uids.len() {
            assert(cache.uids[b].uid == uid);
        }
    }
    assert forall|i: int| 0 <= i < after.uids.len() implies (#[trigger] after.uids[i]).valid()
        && after.first_value_ts <= after.uids[i].first_seen_ts && after.uids[i].last_seen_ts
        <= after.last_value_ts by {
        lemma_recorded_uid(cache, uid, equipment_tag, set, timestamp, measurement, i);
    }
    assert forall|i: int, k: int|
        0 <= i < after.uids.len() && 0 <= k < after.uids[i].fields.len() implies (
    #[trigger] after.uids[i].fields[k]).seen_count <= after.fields_seen_count
        && after.first_value_ts <= after.uids[i].fields[k].first_seen_ts by {
        lemma_recorded_uid(cache, uid, equipment_tag, set, timestamp, measurement, i);
    }
}

/// A new cache is valid.
pub proof fn law_empty_valid(
    output_measurement: Seq<char>,
    inactivity_threshold: u64,
    precision: crate::config::Precision,
    now: i64,
)
    ensures
        CacheView::empty(output_measurement, inactivity_threshold, precision, now).valid(),
{
}

// ---------------------------------------------------------------- removal

proof fn lemma_filter_members<T>(s: Seq<T>, p: spec_fn(T) -> bool, k: int)
    requires
        0 <= k < s.filter(p).len(),
    ensures
        p(s.filter(p)[k]),
        exists|i: int| 0 <= i < s.len() && s[i] == #[trigger] s.filter(p)[k],
    decreases s.len(),
{
    reveal(Seq::filter);
    let t = s.drop_last();
    if s.len() > 0 {
        if p(s.last()) && k == t.filter(p).len() {
            assert(s[s.len() - 1] == s.filter(p)[k]);
        } else {
            lemma_filter_members(t, p, k);
            let i = choose|i: int| 0 <= i < t.len() && t[i] == #[trigger] t.filter(p)[k];
            assert(s[i] == s.filter(p)[k]);
        }
    }
}

/// Distinct fields stay distinct when some are left out.
pub proof fn lemma_filter_distinct_fields(fields: Seq<FieldView>, p: spec_fn(FieldView) -> bool)
    requires
        model::distinct_fields(fields),
    ensures
        model::distinct_fields(fields.filter(p)),
    decreases fields.len(),
{
    reveal(Seq::filter);
    if fields.len() > 0 {
        let t = fields.drop_last();
        let kept = fields.filter(p);
        assert(model::distinct_fields(t)) by {
            assert forall|a: int, b: int|
                0 <= a < t.len() && 0 <= b < t.len() && (#[trigger] t[a]).is(
                    (#[trigger] t[b]).name,
                    t[b].measurement,
                ) implies a == b by {
                assert(fields[a].is(fields[b].name, fields[b].measurement));
            }
        }
        lemma_filter_distinct_fields(t, p);
        if p(fields.last()) {
            let m = t.filter(p).len() as int;
            assert forall|a: int, b: int|
                0 <= a < kept.len() && 0 <= b < kept.len() && (#[trigger] kept[a]).is(
                    (#[trigger] kept[b]).name,
                    kept[b].measurement,
                ) implies a == b by {
                if a < m && b < m {
                    assert(t.filter(p)[a].is(t.filter(p)[b].name, t.filter(p)[b].measurement));
                } else if a < m || b < m {
                    let k = if a < m {
                        a
                    } else {
                        b
                    };
                    lemma_filter_members(t, p, k);
                    let i = choose|i: int| 0 <= i < t.len() && t[i] == #[trigger] t.filter(p)[k];
                    assert(fields[i].is(fields.last().name, fields.last().measurement));
                    assert(fields[i].is(
                        fields[fields.len() - 1].name,
                        fields[fields.len() - 1].measurement,
                    ));
                }
            }
        }
    }
}

proof fn lemma_filter_distinct_uids(uids: Seq<UidView>, p: spec_fn(UidView) -> bool)
    requires
        model::distinct_uids(uids),
    ensures
        model::distinct_uids(uids.filter(p)),
    decreases uids.len(),
{
    reveal(Seq::filter);
    if uids.len() > 0 {
        let t = uids.drop_last();
        let kept = uids.filter(p);
        assert(model::distinct_uids(t)) by {
            assert forall|a: int, b: int|
                0 <= a < t.len() && 0 <= b < t.len() && (#[trigger] t[a]).uid == (
                #[trigger] t[b]).uid implies a == b by {
                assert(uids[a].uid == uids[b].uid);
            }
        }
        lemma_filter_distinct_uids(t, p);
        if p(uids.last()) {
            let m = t.filter(p).len() as int;
            assert forall|a: int, b: int|
                0 <= a < kept.len() && 0 <= b < kept.len() && (#[trigger] kept[a]).uid == (
                #[trigger] kept[b]).uid implies a == b by {
                if a < m && b < m {
                    assert(t.filter(p)[a].uid == t.filter(p)[b].uid);
                } else if a < m || b < m {
                    let k = if a < m {
                        a
                    } else {
                        b
                    };
                    lemma_filter_members(t, p, k);
                    let i = choose|i: int| 0 <= i < t.len() && t[i] == #[trigger] t.filter(p)[k];
                    assert(uids[i].uid == uids[uids.len() - 1].uid);
                }
            }
        }
    }
}

/// The uids that stay are those that were there, without their inactive fields; none of them is
/// inactive.
pub proof fn lemma_pruned_uid(cache: CacheView, added: int, now: int, i: int)
    requires
        0 <= i < cache.pruned(added, now).uids.len(),
    ensures
        exists|j: int|
            0 <= j < cache.uids.len() && !cache.uids[j].inactive(added, now)
                && cache.pruned(added, now).uids[i] == (#[trigger] cache.uids[j]).pruned(
                added,
                now,
            ),
{
    let kept = cache.uids.filter(model::active_uid(added, now));
    lemma_filter_members(cache.uids, model::active_uid(added, now), i);
    let j = choose|j: int| 0 <= j < cache.uids.len() && cache.uids[j] == #[trigger] kept[i];
    assert(cache.pruned(added, now).uids[i] == cache.uids[j].pruned(added, now));
}

proof fn lemma_pruned_total(uids: Seq<UidView>, added: int, now: int)
    ensures
        fold::total(
            uids.filter(model::active_uid(added, now)).map_values(model::pruned_uid(added, now)),
            model::field_number(),
        ) <= fold::total(uids, model::field_number()),
    decreases uids.len(),
{
    reveal(Seq::filter);
    let p = model::active_uid(added, now);
    let g = model::pruned_uid(added, now);
    let f = model::field_number();
    if uids.len() > 0 {
        let t = uids.drop_last();
        lemma_pruned_total(t, added, now);
        if p(uids.last()) {
            assert(uids.filter(p).map_values(g) =~= t.filter(p).map_values(g).push(
                g(uids.last()),
            ));
            fold::lemma_total_push(t.filter(p).map_values(g), g(uids.last()), f);
            uids.last().fields.lemma_filter_len(model::active_field(added, now));
        }
    } else {
        assert(uids.filter(p).map_values(g) =~= Seq::<UidView>::empty());
    }
}

/// Removing what is inactive keeps the cache valid.
pub proof fn law_pruned_valid(cache: CacheView, added: int, now: int)
    requires
        cache.valid(),
    ensures
        cache.pruned(added, now).valid(),
{
    let after = cache.pruned(added, now);
    let p = model::active_uid(added, now);
    let g = model::pruned_uid(added, now);
    lemma_filter_distinct_uids(cache.uids, p);
    lemma_pruned_total(cache.uids, added, now);
    assert forall|a: int, b: int|
        0 <= a < after.uids.len() && 0 <= b < after.uids.len() && (#[trigger] after.uids[a]).uid
            == (#[trigger] after.uids[b]).uid implies a == b by {
        assert(cache.uids.filter(p)[a].uid == cache.uids.filter(p)[b].uid);
    }
    assert forall|i: int| 0 <= i < after.uids.len() implies (#[trigger] after.uids[i]).valid()
        && after.first_value_ts <= after.uids[i].first_seen_ts && after.uids[i].last_seen_ts
        <= after.last_value_ts && fields_within(
        after.uids[i].fields,
        after.fields_seen_count,
        after.first_value_ts,
        after.uids[i].last_seen_ts,
    ) by {
        lemma_pruned_uid(cache, added, now, i);
        let j = choose|j: int|
            0 <= j < cache.uids.len() && !cache.uids[j].inactive(added, now) && after.uids[i] == (
            #[trigger] cache.uids[j]).pruned(added, now);
        let u = cache.uids[j];
        assert(u.valid());
        lemma_uid_fields_within(cache, j);
        lemma_filter_distinct_fields(u.fields, model::active_field(added, now));
        assert forall|k: int| 0 <= k < after.uids[i].fields.len() implies (
        #[trigger] after.uids[i].fields[k]).valid() && after.uids[i].fields[k].seen_count
            <= after.fields_seen_count && after.first_value_ts
            <= after.uids[i].fields[k].first_seen_ts && after.uids[i].fields[k].last_seen_ts
            <= after.uids[i].last_seen_ts by {
            lemma_filter_members(u.fields, model::active_field(added, now), k);
        }
    }
    assert forall|i: int, k: int|
        0 <= i < after.uids.len() && 0 <= k < after.uids[i].fields.len() implies (
    #[trigger] after.uids[i].fields[k]).seen_count <= after.fields_seen_count
        && after.first_value_ts <= after.uids[i].fields[k].first_seen_ts by {
        assert(after.uids[i].valid());
    }
}

/// Taking a uid out keeps the cache valid.
pub proof fn law_removed_valid(cache: CacheView, i: int)
    requires
        cache.valid(),
        0 <= i < cache.uids.len(),
    ensures
        cache.with_uids(cache.uids.remove(i)).valid(),
{
    let after = cache.with_uids(cache.uids.remove(i));
    fold::lemma_total_remove(cache.uids, i, model::field_number());
    assert forall|a: int, b: int|
        0 <= a < after.uids.len() && 0 <= b < after.uids.len() && (#[trigger] after.uids[a]).uid
            == (#[trigger] after.uids[b]).uid implies a == b by {
        let a0 = if a < i {
            a
        } else {
            a + 1
        };
        let b0 = if b < i {
            b
        } else {
            b + 1
        };
        assert(cache.uids[a0].uid == cache.uids[b0].uid);
    }
    assert forall|k: int| 0 <= k < after.uids.len() implies (#[trigger] after.uids[k]).valid()
        && after.first_value_ts <= after.uids[k].first_seen_ts && after.uids[k].last_seen_ts
        <= after.last_value_ts by {
        let k0 = if k < i {
            k
        } else {
            k + 1
        };
        assert(cache.uids[k0].valid());
    }
    assert forall|a: int, k: int|
        0 <= a < after.uids.len() && 0 <= k < after.uids[a].fields.len() implies (
    #[trigger] after.uids[a].fields[k]).seen_count <= after.fields_seen_count
        && after.first_value_ts <= after.uids[a].fields[k].first_seen_ts by {
        let a0 = if a < i {
            a
        } else {
            a + 1
        };
        assert(cache.uids[a0].fields[k].seen_count <= cache.fields_seen_count);
    }
}

} // verus!
