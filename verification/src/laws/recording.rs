//! What becomes of a field when values are recorded.

use vstd::prelude::*;

use crate::invariants;
use crate::laws;
use crate::laws::values;
use crate::model;
use crate::model::{CacheView, FieldView, ItemView};
use crate::value::ValueView;

verus! {

// ---------------------------------------------------------------- where a field stands

/// The field stands under this uid.
pub open spec fn stands(cache: CacheView, uid: Seq<char>, f: FieldView) -> bool {
    exists|i: int, k: int|
        0 <= i < cache.uids.len() && cache.uids[i].uid == uid && 0 <= k
            < cache.uids[i].fields.len() && f == #[trigger] cache.uids[i].fields[k]
}

/// Some uid goes by this name.
pub open spec fn has_uid(cache: CacheView, uid: Seq<char>) -> bool {
    exists|i: int| 0 <= i < cache.uids.len() && (#[trigger] cache.uids[i]).uid == uid
}

/// Some field of this name and measurement stands under this uid.
pub open spec fn has_field(
    cache: CacheView,
    uid: Seq<char>,
    name: Seq<char>,
    measurement: Seq<char>,
) -> bool {
    exists|f: FieldView| #[trigger]
        stands(cache, uid, f) && f.name == name && f.measurement == measurement
}

pub proof fn lemma_stands(cache: CacheView, uid: Seq<char>, f: FieldView) -> (p: (int, int))
    requires
        cache.valid(),
        stands(cache, uid, f),
    ensures
        model::known_uid(cache.uids, uid),
        p.0 == model::uid_place(cache.uids, uid),
        0 <= p.0 < cache.uids.len(),
        cache.uids[p.0].uid == uid,
        model::known_field(cache.uids[p.0].fields, f.name, f.measurement),
        p.1 == model::field_place(cache.uids[p.0].fields, f.name, f.measurement),
        0 <= p.1 < cache.uids[p.0].fields.len(),
        cache.uids[p.0].fields[p.1] == f,
{
    let (i, k) = choose|i: int, k: int|
        0 <= i < cache.uids.len() && cache.uids[i].uid == uid && 0 <= k
            < cache.uids[i].fields.len() && f == #[trigger] cache.uids[i].fields[k];
    assert(cache.uids[i].uid == uid);
    let j = model::uid_place(cache.uids, uid);
    assert(cache.uids[j].uid == uid);
    assert(i == j);
    assert(cache.uids[i].valid());
    let fields = cache.uids[i].fields;
    assert(fields[k].is(f.name, f.measurement));
    let l = model::field_place(fields, f.name, f.measurement);
    assert(fields[l].is(f.name, f.measurement));
    assert(fields[k].is(fields[l].name, fields[l].measurement));
    (i, k)
}

pub proof fn lemma_no_field(
    cache: CacheView,
    uid: Seq<char>,
    name: Seq<char>,
    measurement: Seq<char>,
)
    requires
        !has_field(cache, uid, name, measurement),
        model::known_uid(cache.uids, uid),
    ensures
        !model::known_field(
            cache.uids[model::uid_place(cache.uids, uid)].fields,
            name,
            measurement,
        ),
{
    let i = model::uid_place(cache.uids, uid);
    assert(cache.uids[i].uid == uid);
    let fields = cache.uids[i].fields;
    if model::known_field(fields, name, measurement) {
        let k = model::field_place(fields, name, measurement);
        assert(fields[k].is(name, measurement));
        assert(stands(cache, uid, cache.uids[i].fields[k]));
    }
}

/// Under one uid there is one field of a name and measurement.
pub proof fn law_one_field(cache: CacheView, uid: Seq<char>, f: FieldView, g: FieldView)
    requires
        cache.valid(),
        stands(cache, uid, f),
        stands(cache, uid, g),
        f.name == g.name,
        f.measurement == g.measurement,
    ensures
        f == g,
{
    let _ = lemma_stands(cache, uid, f);
    let _ = lemma_stands(cache, uid, g);
}

// ---------------------------------------------------------------- one value

/// `g` is `f` after one more value: it holds that value, was seen once more, and keeps the last
/// five timestamps. A value unlike the one held is a change at its timestamp, however often the
/// field changed before. It is sent, and so is one that comes a minute or more after the last
/// sending.
pub open spec fn follows(f: FieldView, g: FieldView, value: ValueView, t: i64) -> bool {
    &&& g.name == f.name
    &&& g.measurement == f.measurement
    &&& g.value == value
    &&& g.first_seen_ts == f.first_seen_ts
    &&& g.last_seen_ts >= f.last_seen_ts
    &&& g.last_seen_ts >= t
    &&& g.last_seen_ts == f.last_seen_ts || g.last_seen_ts == t
    &&& g.seen_count == f.seen_count + 1
    &&& !values::alike(f.value, value) ==> {
        &&& g.last_changed_ts == t
        &&& g.changed_count == f.changed_count + 1
        &&& g.last_sent_ts == t
    }
    &&& values::alike(f.value, value) ==> {
        &&& g.last_changed_ts == f.last_changed_ts
        &&& g.changed_count == f.changed_count
        &&& t - f.last_sent_ts >= 60 ==> g.last_sent_ts == t
        &&& t - f.last_sent_ts < 60 ==> g.last_sent_ts == f.last_sent_ts
    }
    &&& f.last_5_ts.len() < 5 ==> g.last_5_ts == f.last_5_ts.push(t)
    &&& f.last_5_ts.len() == 5 ==> g.last_5_ts == seq![
        f.last_5_ts[1],
        f.last_5_ts[2],
        f.last_5_ts[3],
        f.last_5_ts[4],
        t,
    ]
}

/// `g` is a field after its first value.
pub open spec fn begins(
    g: FieldView,
    name: Seq<char>,
    measurement: Seq<char>,
    value: ValueView,
    t: i64,
) -> bool {
    &&& g.name == name
    &&& g.measurement == measurement
    &&& g.value == value
    &&& g.first_seen_ts == t
    &&& g.last_seen_ts == t
    &&& g.last_changed_ts == t
    &&& g.last_sent_ts == t
    &&& g.last_5_ts == seq![t]
    &&& g.seen_count == 1
    &&& g.changed_count == 0
}

proof fn lemma_follows(f: FieldView, value: ValueView, t: i64)
    requires
        f.valid(),
    ensures
        follows(f, f.updated(value, t), value, t),
{
    values::law_alike(f.value, value);
    let g = f.updated(value, t);
    if f.last_5_ts.len() == 5 {
        assert(g.last_5_ts =~= seq![
            f.last_5_ts[1],
            f.last_5_ts[2],
            f.last_5_ts[3],
            f.last_5_ts[4],
            t,
        ]);
    }
}

proof fn lemma_named_once(
    fields: Seq<FieldView>,
    set: Seq<ItemView>,
    measurement: Seq<char>,
    t: i64,
    seen: nat,
    oldest: i64,
    newest: i64,
    k: int,
)
    requires
        invariants::fields_within(fields, seen, oldest, newest),
        0 <= k < set.len(),
        forall|j: int| 0 <= j < set.len() && j != k ==> (#[trigger] set[j]).0 != set[k].0,
    ensures
        ({
            let after = model::with_values(fields, set, measurement, t);
            let p = model::field_place(fields, set[k].0, measurement);
            &&& after.len() >= fields.len()
            &&& model::known_field(fields, set[k].0, measurement) ==> after[p]
                == fields[p].updated(set[k].1, t)
            &&& !model::known_field(fields, set[k].0, measurement) ==> exists|q: int|
                0 <= q < after.len() && #[trigger] after[q] == FieldView::fresh(
                    set[k].0,
                    measurement,
                    set[k].1,
                    t,
                )
        }),
    decreases set.len(),
{
    let name = set[k].0;
    let s = set.drop_last();
    let before = model::with_values(fields, s, measurement, t);
    let after = model::with_values(fields, set, measurement, t);
    let known = model::known_field(fields, name, measurement);
    let p = model::field_place(fields, name, measurement);
    invariants::lemma_with_values(fields, s, measurement, t, seen, oldest, newest);
    invariants::lemma_with_values(fields, set, measurement, t, seen, oldest, newest);
    if known {
        assert(fields[p].is(name, measurement));
    }
    if k == set.len() - 1 {
        if known {
            assert forall|j: int| 0 <= j < s.len() implies (#[trigger] s[j]).0 != name by {
                assert(s[j] == set[j]);
            }
            laws::lemma_other_fields_stay(fields, s, measurement, t, p);
            assert(before[p].is(name, measurement));
            let q = model::field_place(before, name, measurement);
            assert(before[q].is(name, measurement));
            assert(before[p].is(before[q].name, before[q].measurement));
        } else {
            lemma_unnamed_unknown(fields, s, measurement, t, name);
            assert(after[before.len() as int] == FieldView::fresh(name, measurement, set[k].1, t));
        }
    } else {
        assert(set[set.len() - 1].0 != name);
        assert forall|j: int| 0 <= j < s.len() && j != k implies (#[trigger] s[j]).0 != s[k].0 by {
            assert(s[j] == set[j]);
        }
        lemma_named_once(fields, s, measurement, t, seen, oldest, newest, k);
        let item = set.last();
        if known {
            if model::known_field(before, item.0, measurement) {
                let r = model::field_place(before, item.0, measurement);
                assert(before[r].is(item.0, measurement));
            }
        } else {
            let q = choose|q: int|
                0 <= q < before.len() && #[trigger] before[q] == FieldView::fresh(
                    name,
                    measurement,
                    set[k].1,
                    t,
                );
            if model::known_field(before, item.0, measurement) {
                let r = model::field_place(before, item.0, measurement);
                assert(before[r].is(item.0, measurement));
            }
            assert(after[q] == before[q]);
        }
    }
}

/// Values of other names bring no field of this name.
proof fn lemma_unnamed_unknown(
    fields: Seq<FieldView>,
    set: Seq<ItemView>,
    measurement: Seq<char>,
    t: i64,
    name: Seq<char>,
)
    requires
        !model::known_field(fields, name, measurement),
        forall|j: int| 0 <= j < set.len() ==> (#[trigger] set[j]).0 != name,
    ensures
        !model::known_field(
            model::with_values(fields, set, measurement, t),
            name,
            measurement,
        ),
    decreases set.len(),
{
    if set.len() > 0 {
        let s = set.drop_last();
        assert forall|j: int| 0 <= j < s.len() implies (#[trigger] s[j]).0 != name by {
            assert(s[j] == set[j]);
        }
        lemma_unnamed_unknown(fields, s, measurement, t, name);
        let before = model::with_values(fields, s, measurement, t);
        let after = model::with_values(fields, set, measurement, t);
        assert(set[set.len() - 1].0 != name);
        if model::known_field(before, set.last().0, measurement) {
            let r = model::field_place(before, set.last().0, measurement);
            assert(before[r].is(set.last().0, measurement));
        }
        if model::known_field(after, name, measurement) {
            let q = model::field_place(after, name, measurement);
            assert(after[q].is(name, measurement));
            if q < before.len() {
                assert(before[q].is(name, measurement));
            }
        }
    }
}

/// A field that a line names once holds the value of the line afterwards and has followed from what
/// it was before.
pub proof fn law_value_recorded(
    cache: CacheView,
    uid: Seq<char>,
    equipment_tag: Option<Seq<char>>,
    set: Seq<ItemView>,
    t: i64,
    f: FieldView,
    k: int,
) -> (g: FieldView)
    requires
        cache.valid(),
        stands(cache, uid, f),
        0 <= k < set.len(),
        set[k].0 == f.name,
        forall|j: int| 0 <= j < set.len() && j != k ==> (#[trigger] set[j]).0 != set[k].0,
    ensures
        stands(cache.recorded(uid, equipment_tag, set, t, f.measurement), uid, g),
        follows(f, g, set[k].1, t),
{
    let after = cache.recorded(uid, equipment_tag, set, t, f.measurement);
    let (i, p) = lemma_stands(cache, uid, f);
    invariants::lemma_uid_fields_within(cache, i);
    assert(cache.uids[i].valid());
    assert(cache.uids[i].fields[p].valid());
    lemma_named_once(
        cache.uids[i].fields,
        set,
        f.measurement,
        t,
        cache.fields_seen_count,
        cache.first_value_ts,
        cache.uids[i].last_seen_ts,
        k,
    );
    let g = f.updated(set[k].1, t);
    lemma_follows(f, set[k].1, t);
    assert(after.uids[i].uid == uid);
    assert(after.uids[i].fields[p] == g);
    g
}

/// A field that a line names once and that was not known begins with that line.
pub proof fn law_first_value_recorded(
    cache: CacheView,
    uid: Seq<char>,
    equipment_tag: Option<Seq<char>>,
    set: Seq<ItemView>,
    t: i64,
    measurement: Seq<char>,
    k: int,
) -> (g: FieldView)
    requires
        cache.valid(),
        0 <= k < set.len(),
        !has_field(cache, uid, set[k].0, measurement),
        forall|j: int| 0 <= j < set.len() && j != k ==> (#[trigger] set[j]).0 != set[k].0,
    ensures
        stands(cache.recorded(uid, equipment_tag, set, t, measurement), uid, g),
        begins(g, set[k].0, measurement, set[k].1, t),
{
    let after = cache.recorded(uid, equipment_tag, set, t, measurement);
    let g = FieldView::fresh(set[k].0, measurement, set[k].1, t);
    if model::known_uid(cache.uids, uid) {
        lemma_no_field(cache, uid, set[k].0, measurement);
        let i = model::uid_place(cache.uids, uid);
        assert(cache.uids[i].uid == uid);
        invariants::lemma_uid_fields_within(cache, i);
        let fields = cache.uids[i].fields;
        lemma_named_once(
            fields,
            set,
            measurement,
            t,
            cache.fields_seen_count,
            cache.first_value_ts,
            cache.uids[i].last_seen_ts,
            k,
        );
        let q = choose|q: int|
            0 <= q < model::with_values(fields, set, measurement, t).len()
                && #[trigger] model::with_values(fields, set, measurement, t)[q] == g;
        assert(after.uids[i].fields[q] == g);
    } else {
        laws::law_read_back(cache, uid, equipment_tag, set, t, measurement, k);
        let i = cache.uids.len() as int;
        let fields = after.uids[i].fields;
        laws::lemma_recorded_place(cache, uid, equipment_tag, set, t, measurement);
        let q = model::field_place(fields, set[k].0, measurement);
        assert(fields[q].is(set[k].0, measurement));
        lemma_first_values_begin(set, measurement, t, q);
        assert(after.uids[i].fields[q] == g);
    }
    g
}

proof fn lemma_first_values_begin(set: Seq<ItemView>, measurement: Seq<char>, t: i64, q: int)
    requires
        0 <= q < model::first_values(set, measurement, t).len(),
    ensures
        ({
            let f = model::first_values(set, measurement, t)[q];
            f == FieldView::fresh(f.name, measurement, f.value, t)
        }),
    decreases set.len(),
{
    if set.len() > 0 {
        let before = model::first_values(set.drop_last(), measurement, t);
        let known = model::known_field(before, set.last().0, measurement);
        let place = model::field_place(before, set.last().0, measurement);
        if q < before.len() && !(known && q == place) {
            lemma_first_values_begin(set.drop_last(), measurement, t, q);
        }
    }
}

/// All fields of a uid begin with its first line; a name that the line repeats holds its last
/// value.
pub proof fn law_first_line(
    cache: CacheView,
    uid: Seq<char>,
    equipment_tag: Option<Seq<char>>,
    set: Seq<ItemView>,
    t: i64,
    measurement: Seq<char>,
    f: FieldView,
)
    requires
        cache.valid(),
        !has_uid(cache, uid),
        stands(cache.recorded(uid, equipment_tag, set, t, measurement), uid, f),
    ensures
        begins(f, f.name, measurement, f.value, t),
        exists|k: int|
            0 <= k < set.len() && f.name == (#[trigger] set[k]).0 && f.value == set[k].1
                && forall|j: int| k < j < set.len() ==> (#[trigger] set[j]).0 != f.name,
{
    let after = cache.recorded(uid, equipment_tag, set, t, measurement);
    let (i, q) = choose|i: int, q: int|
        0 <= i < after.uids.len() && after.uids[i].uid == uid && 0 <= q
            < after.uids[i].fields.len() && f == #[trigger] after.uids[i].fields[q];
    assert(!model::known_uid(cache.uids, uid));
    if i < cache.uids.len() {
        assert(cache.uids[i].uid == uid);
    }
    lemma_first_values_begin(set, measurement, t, q);
    lemma_first_values_named(set, measurement, t, q);
}

proof fn lemma_first_values_named(set: Seq<ItemView>, measurement: Seq<char>, t: i64, q: int)
    requires
        0 <= q < model::first_values(set, measurement, t).len(),
    ensures
        ({
            let f = model::first_values(set, measurement, t)[q];
            exists|k: int|
                0 <= k < set.len() && f.name == (#[trigger] set[k]).0 && f.value == set[k].1
                    && forall|j: int| k < j < set.len() ==> (#[trigger] set[j]).0 != f.name
        }),
    decreases set.len(),
{
    if set.len() > 0 {
        let s = set.drop_last();
        let item = set[set.len() - 1];
        let before = model::first_values(s, measurement, t);
        let f = model::first_values(set, measurement, t)[q];
        let known = model::known_field(before, item.0, measurement);
        let place = model::field_place(before, item.0, measurement);
        if known {
            assert(before[place].is(item.0, measurement));
        }
        if (known && q == place) || (!known && q == before.len()) {
            assert(f.name == set[set.len() - 1].0);
        } else {
            lemma_first_values_named(s, measurement, t, q);
            lemma_first_values_begin(s, measurement, t, q);
            let k = choose|k: int|
                0 <= k < s.len() && f.name == (#[trigger] s[k]).0 && f.value == s[k].1
                    && forall|j: int| k < j < s.len() ==> (#[trigger] s[j]).0 != f.name;
            if f.name == item.0 {
                assert(before[q].is(item.0, measurement));
                invariants::lemma_first_values(s, measurement, t);
                assert(before[q].is(before[place].name, before[place].measurement));
            }
            assert(f.name == set[k].0);
            assert forall|j: int| k < j < set.len() implies (#[trigger] set[j]).0 != f.name by {
                if j < s.len() {
                    assert(s[j].0 != f.name);
                }
            }
        }
    }
}

/// A line for a known uid brings its values one behind the other: it leaves the fields of the uid
/// and all counts of values as two lines with the first and the other values would.
pub proof fn law_values_one_behind_the_other(
    cache: CacheView,
    uid: Seq<char>,
    equipment_tag: Option<Seq<char>>,
    first: Seq<ItemView>,
    second: Seq<ItemView>,
    t: i64,
    measurement: Seq<char>,
)
    requires
        cache.valid(),
        has_uid(cache, uid),
    ensures
        ({
            let one = cache.recorded(uid, equipment_tag, first + second, t, measurement);
            let two = cache.recorded(uid, equipment_tag, first, t, measurement).recorded(
                uid,
                equipment_tag,
                second,
                t,
                measurement,
            );
            &&& one.uids.len() == two.uids.len()
            &&& forall|i: int|
                0 <= i < one.uids.len() ==> (#[trigger] one.uids[i]).fields == two.uids[i].fields
            &&& one.fields_seen_count == two.fields_seen_count
            &&& one.fields_changed_count == two.fields_changed_count
            &&& one.fields_sent_initial_count == two.fields_sent_initial_count
            &&& one.fields_sent_changed_count == two.fields_sent_changed_count
            &&& one.fields_sent_timeout_count == two.fields_sent_timeout_count
            &&& one.fields_sent_suppressed_count == two.fields_sent_suppressed_count
        }),
{
    let middle = cache.recorded(uid, equipment_tag, first, t, measurement);
    let i = model::uid_place(cache.uids, uid);
    assert(model::known_uid(cache.uids, uid));
    laws::lemma_recorded_place(cache, uid, equipment_tag, first, t, measurement);
    let fields = cache.uids[i].fields;
    assert(middle.uids[i].fields == model::with_values(fields, first, measurement, t));
    lemma_values_split(fields, first, second, measurement, t, model::Sending::Initial);
    lemma_values_split(fields, first, second, measurement, t, model::Sending::Changed);
    lemma_values_split(fields, first, second, measurement, t, model::Sending::Timeout);
    lemma_values_split(fields, first, second, measurement, t, model::Sending::Suppressed);
}

proof fn lemma_values_split(
    fields: Seq<FieldView>,
    first: Seq<ItemView>,
    second: Seq<ItemView>,
    measurement: Seq<char>,
    t: i64,
    sending: model::Sending,
)
    ensures
        model::with_values(fields, first + second, measurement, t) == model::with_values(
            model::with_values(fields, first, measurement, t),
            second,
            measurement,
            t,
        ),
        model::sendings(fields, first + second, measurement, t, sending) == model::sendings(
            fields,
            first,
            measurement,
            t,
            sending,
        ) + model::sendings(
            model::with_values(fields, first, measurement, t),
            second,
            measurement,
            t,
            sending,
        ),
    decreases second.len(),
{
    if second.len() == 0 {
        assert(first + second =~= first);
    } else {
        assert((first + second).drop_last() =~= first + second.drop_last());
        assert((first + second).last() == second.last());
        lemma_values_split(fields, first, second.drop_last(), measurement, t, sending);
    }
}

// ---------------------------------------------------------------- what a line counts for

/// One value for a known field counts for one of changed, timed out and held back: changed where it
/// is unlike the value held, timed out where it is alike and a minute or more has passed since the
/// last sending, and held back otherwise.
pub proof fn law_value_counted(
    cache: CacheView,
    uid: Seq<char>,
    equipment_tag: Option<Seq<char>>,
    f: FieldView,
    value: ValueView,
    t: i64,
)
    requires
        cache.valid(),
        stands(cache, uid, f),
    ensures
        ({
            let after = cache.recorded(
                uid,
                equipment_tag,
                seq![(f.name, value)],
                t,
                f.measurement,
            );
            let changed: int = if values::alike(f.value, value) {
                0
            } else {
                1
            };
            let late: int = if values::alike(f.value, value) && t - f.last_sent_ts >= 60 {
                1
            } else {
                0
            };
            &&& after.fields_seen_count == cache.fields_seen_count + 1
            &&& after.fields_sent_initial_count == cache.fields_sent_initial_count
            &&& after.fields_changed_count == cache.fields_changed_count + changed
            &&& after.fields_sent_changed_count == cache.fields_sent_changed_count + changed
            &&& after.fields_sent_timeout_count == cache.fields_sent_timeout_count + late
            &&& after.fields_sent_suppressed_count == cache.fields_sent_suppressed_count + 1
                - changed - late
        }),
{
    reveal_with_fuel(model::sendings, 2);
    let set = seq![(f.name, value)];
    let _ = lemma_stands(cache, uid, f);
    values::law_alike(f.value, value);
    assert(set.drop_last().len() == 0);
    assert(set.last() == (f.name, value));
}

/// One value for a field that its uid did not have counts for an initial one.
pub proof fn law_first_value_counted(
    cache: CacheView,
    uid: Seq<char>,
    equipment_tag: Option<Seq<char>>,
    name: Seq<char>,
    value: ValueView,
    t: i64,
    measurement: Seq<char>,
)
    requires
        cache.valid(),
        !has_field(cache, uid, name, measurement),
    ensures
        ({
            let after = cache.recorded(uid, equipment_tag, seq![(name, value)], t, measurement);
            &&& after.fields_seen_count == cache.fields_seen_count + 1
            &&& after.fields_sent_initial_count == cache.fields_sent_initial_count + 1
            &&& after.fields_changed_count == cache.fields_changed_count
            &&& after.fields_sent_changed_count == cache.fields_sent_changed_count
            &&& after.fields_sent_timeout_count == cache.fields_sent_timeout_count
            &&& after.fields_sent_suppressed_count == cache.fields_sent_suppressed_count
        }),
{
    reveal_with_fuel(model::sendings, 2);
    let set = seq![(name, value)];
    if model::known_uid(cache.uids, uid) {
        lemma_no_field(cache, uid, name, measurement);
    }
    assert(set.drop_last().len() == 0);
    assert(set.last() == (name, value));
}

/// All values of the first line of a uid count for initial ones.
pub proof fn law_first_line_counted(
    cache: CacheView,
    uid: Seq<char>,
    equipment_tag: Option<Seq<char>>,
    set: Seq<ItemView>,
    t: i64,
    measurement: Seq<char>,
)
    requires
        !has_uid(cache, uid),
    ensures
        ({
            let after = cache.recorded(uid, equipment_tag, set, t, measurement);
            &&& after.fields_sent_initial_count == cache.fields_sent_initial_count + set.len()
            &&& after.fields_changed_count == cache.fields_changed_count
            &&& after.fields_sent_changed_count == cache.fields_sent_changed_count
            &&& after.fields_sent_timeout_count == cache.fields_sent_timeout_count
            &&& after.fields_sent_suppressed_count == cache.fields_sent_suppressed_count
        }),
{
    assert(!model::known_uid(cache.uids, uid));
}

/// A line moves the span of the cache and of its uid to its timestamp where that lies outside,
/// counts its values and itself, and touches no setting, no count of messages and no other uid. A
/// uid that was not known comes last, with the equipment tag of the line.
pub proof fn law_line_recorded(
    cache: CacheView,
    uid: Seq<char>,
    equipment_tag: Option<Seq<char>>,
    set: Seq<ItemView>,
    t: i64,
    measurement: Seq<char>,
)
    requires
        cache.valid(),
    ensures
        ({
            let after = cache.recorded(uid, equipment_tag, set, t, measurement);
            &&& after.output_measurement == cache.output_measurement
            &&& after.precision == cache.precision
            &&& after.created_timestamp == cache.created_timestamp
            &&& after.minimum_inactivity_seconds == cache.minimum_inactivity_seconds
            &&& after.kafka_message_count == cache.kafka_message_count
            &&& after.ilp_line_count == cache.ilp_line_count
            &&& after.first_value_ts <= cache.first_value_ts && after.first_value_ts <= t
            &&& after.first_value_ts == cache.first_value_ts || after.first_value_ts == t
            &&& after.last_value_ts >= cache.last_value_ts && after.last_value_ts >= t
            &&& after.last_value_ts == cache.last_value_ts || after.last_value_ts == t
            &&& after.fields_seen_count == cache.fields_seen_count + set.len()
            &&& forall|i: int|
                0 <= i < cache.uids.len() && (#[trigger] cache.uids[i]).uid != uid
                    ==> after.uids[i] == cache.uids[i]
            &&& forall|i: int|
                0 <= i < cache.uids.len() && (#[trigger] cache.uids[i]).uid == uid ==> {
                    let u = cache.uids[i];
                    let v = after.uids[i];
                    &&& v.uid == uid
                    &&& v.first_seen_ts == u.first_seen_ts
                    &&& v.last_seen_ts >= u.last_seen_ts && v.last_seen_ts >= t
                    &&& v.last_seen_ts == u.last_seen_ts || v.last_seen_ts == t
                    &&& v.seen_count == u.seen_count + 1
                    &&& v.equipment_tag == u.equipment_tag
                }
            &&& has_uid(cache, uid) ==> after.uids.len() == cache.uids.len()
            &&& !has_uid(cache, uid) ==> {
                let v = after.uids[cache.uids.len() as int];
                &&& after.uids.len() == cache.uids.len() + 1
                &&& v.uid == uid
                &&& v.first_seen_ts == t
                &&& v.last_seen_ts == t
                &&& v.seen_count == 1
                &&& v.equipment_tag == equipment_tag
            }
        }),
{
    let after = cache.recorded(uid, equipment_tag, set, t, measurement);
    if model::known_uid(cache.uids, uid) {
        let j = model::uid_place(cache.uids, uid);
        assert(cache.uids[j].uid == uid);
        assert forall|i: int|
            0 <= i < cache.uids.len() && (#[trigger] cache.uids[i]).uid == uid implies i == j by {}
    }
}

/// A line changes the fields that it names, and no others; and it brings no field but those.
pub proof fn law_only_named_fields(
    cache: CacheView,
    uid: Seq<char>,
    equipment_tag: Option<Seq<char>>,
    set: Seq<ItemView>,
    t: i64,
    measurement: Seq<char>,
    f: FieldView,
)
    requires
        cache.valid(),
        f.measurement != measurement || forall|j: int|
            0 <= j < set.len() ==> (#[trigger] set[j]).0 != f.name,
    ensures
        stands(cache.recorded(uid, equipment_tag, set, t, measurement), uid, f) <==> stands(
            cache,
            uid,
            f,
        ),
{
    let after = cache.recorded(uid, equipment_tag, set, t, measurement);
    invariants::law_recorded_valid(cache, uid, equipment_tag, set, t, measurement);
    if stands(cache, uid, f) {
        let (i, k) = lemma_stands(cache, uid, f);
        laws::lemma_other_fields_stay(cache.uids[i].fields, set, measurement, t, k);
        assert(after.uids[i].uid == uid);
        assert(after.uids[i].fields[k] == f);
    }
    if stands(after, uid, f) {
        let (i, k) = lemma_stands(after, uid, f);
        laws::lemma_recorded_place(cache, uid, equipment_tag, set, t, measurement);
        if model::known_uid(cache.uids, uid) {
            let fields = cache.uids[i].fields;
            assert(cache.uids[i].uid == uid);
            lemma_only_named(fields, set, measurement, t, k);
            if k < fields.len() {
                laws::lemma_other_fields_stay(fields, set, measurement, t, k);
                assert(cache.uids[i].fields[k] == f);
            }
        } else {
            lemma_first_values_named(set, measurement, t, k);
            lemma_first_values_begin(set, measurement, t, k);
        }
    }
}

/// Fields keep their names and measurements, and one that is new bears a name of the line.
proof fn lemma_only_named(
    fields: Seq<FieldView>,
    set: Seq<ItemView>,
    measurement: Seq<char>,
    t: i64,
    k: int,
)
    requires
        0 <= k < model::with_values(fields, set, measurement, t).len(),
    ensures
        ({
            let g = model::with_values(fields, set, measurement, t)[k];
            if k < fields.len() {
                g.name == fields[k].name && g.measurement == fields[k].measurement
            } else {
                g.measurement == measurement && exists|j: int|
                    0 <= j < set.len() && (#[trigger] set[j]).0 == g.name
            }
        }),
    decreases set.len(),
{
    if set.len() > 0 {
        let s = set.drop_last();
        let before = model::with_values(fields, s, measurement, t);
        let g = model::with_values(fields, set, measurement, t)[k];
        if k < before.len() {
            lemma_only_named(fields, s, measurement, t, k);
            if k >= fields.len() {
                let j = choose|j: int| 0 <= j < s.len() && (#[trigger] s[j]).0 == g.name;
                assert(set[j].0 == g.name);
            }
        } else {
            lemma_values_grow(fields, s, measurement, t);
            assert(set[set.len() - 1].0 == g.name);
        }
    }
}

proof fn lemma_values_grow(
    fields: Seq<FieldView>,
    set: Seq<ItemView>,
    measurement: Seq<char>,
    t: i64,
)
    ensures
        model::with_values(fields, set, measurement, t).len() >= fields.len(),
    decreases set.len(),
{
    if set.len() > 0 {
        lemma_values_grow(fields, set.drop_last(), measurement, t);
    }
}

} // verus!
