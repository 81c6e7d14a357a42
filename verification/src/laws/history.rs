//! What a field tells of the values that were recorded for it.

use vstd::prelude::*;

use crate::invariants;
use crate::laws::recording;
use crate::laws::values;
use crate::model::{CacheView, FieldView};
use crate::value::ValueView;

verus! {

/// A value and the timestamp at which it came.
pub type Reading = (ValueView, i64);

/// The cache after these values of one field, each in a line of its own.
pub open spec fn after_readings(
    cache: CacheView,
    uid: Seq<char>,
    equipment_tag: Option<Seq<char>>,
    name: Seq<char>,
    measurement: Seq<char>,
    readings: Seq<Reading>,
) -> CacheView
    decreases readings.len(),
{
    if readings.len() == 0 {
        cache
    } else {
        after_readings(
            cache,
            uid,
            equipment_tag,
            name,
            measurement,
            readings.drop_last(),
        ).recorded(
            uid,
            equipment_tag,
            seq![(name, readings.last().0)],
            readings.last().1,
            measurement,
        )
    }
}

/// The readings that are unlike the one before.
pub open spec fn changes(readings: Seq<Reading>) -> Set<int> {
    Set::new(
        |i: int|
            0 < i < readings.len() && !values::alike(readings[i - 1].0, readings[i].0),
    )
}

/// Reading `i` is the last one that is unlike the one before, or the first where all are alike.
pub open spec fn last_change(readings: Seq<Reading>, i: int) -> bool {
    &&& i == 0 || changes(readings).contains(i)
    &&& forall|j: int| j > i ==> !(#[trigger] changes(readings).contains(j))
}

/// The field holds the last of the readings, counts them and their changes, and tells when the
/// first, the latest, the last five and the last change came.
pub open spec fn tells(
    f: FieldView,
    name: Seq<char>,
    measurement: Seq<char>,
    readings: Seq<Reading>,
) -> bool {
    let n = readings.len() as int;
    &&& f.name == name
    &&& f.measurement == measurement
    &&& f.value == readings[n - 1].0
    &&& f.first_seen_ts == readings[0].1
    &&& forall|i: int| 0 <= i < n ==> (#[trigger] readings[i]).1 <= f.last_seen_ts
    &&& exists|i: int| 0 <= i < n && (#[trigger] readings[i]).1 == f.last_seen_ts
    &&& f.seen_count == n
    &&& f.changed_count == changes(readings).len()
    &&& exists|i: int|
        0 <= i < n && #[trigger] last_change(readings, i) && f.last_changed_ts == readings[i].1
    &&& f.last_5_ts.len() == if n < 5 {
        n
    } else {
        5
    }
    &&& forall|j: int|
        0 <= j < f.last_5_ts.len() ==> #[trigger] f.last_5_ts[j] == readings[n - f.last_5_ts.len()
            + j].1
}

/// A field that was not known tells of all values that were recorded for it since.
pub proof fn law_history(
    cache: CacheView,
    uid: Seq<char>,
    equipment_tag: Option<Seq<char>>,
    name: Seq<char>,
    measurement: Seq<char>,
    readings: Seq<Reading>,
) -> (f: FieldView)
    requires
        cache.valid(),
        !recording::has_field(cache, uid, name, measurement),
        readings.len() > 0,
    ensures
        ({
            let after = after_readings(cache, uid, equipment_tag, name, measurement, readings);
            &&& after.valid()
            &&& recording::stands(after, uid, f)
            &&& tells(f, name, measurement, readings)
        }),
{
    lemma_history(cache, uid, equipment_tag, name, measurement, readings)
}

proof fn lemma_history(
    cache: CacheView,
    uid: Seq<char>,
    equipment_tag: Option<Seq<char>>,
    name: Seq<char>,
    measurement: Seq<char>,
    readings: Seq<Reading>,
) -> (f: FieldView)
    requires
        cache.valid(),
        !recording::has_field(cache, uid, name, measurement),
        readings.len() > 0,
    ensures
        after_readings(cache, uid, equipment_tag, name, measurement, readings).valid(),
        recording::stands(
            after_readings(cache, uid, equipment_tag, name, measurement, readings),
            uid,
            f,
        ),
        tells(f, name, measurement, readings),
        changes(readings).finite(),
    decreases readings.len(),
{
    let s = readings.drop_last();
    let n = readings.len() as int;
    let last = readings[n - 1];
    let set = seq![(name, last.0)];
    let before = after_readings(cache, uid, equipment_tag, name, measurement, s);
    assert(set[0] == (name, last.0));
    if s.len() == 0 {
        assert(before == cache);
        invariants::law_recorded_valid(cache, uid, equipment_tag, set, last.1, measurement);
        let g = recording::law_first_value_recorded(
            cache,
            uid,
            equipment_tag,
            set,
            last.1,
            measurement,
            0,
        );
        assert(changes(readings) =~= Set::empty());
        assert(last_change(readings, 0));
        assert(readings[0].1 == g.last_seen_ts);
        g
    } else {
        let f = lemma_history(cache, uid, equipment_tag, name, measurement, s);
        invariants::law_recorded_valid(before, uid, equipment_tag, set, last.1, measurement);
        let g = recording::law_value_recorded(before, uid, equipment_tag, set, last.1, f, 0);
        let changed = !values::alike(readings[n - 2].0, last.0);
        assert(s[s.len() - 1] == readings[n - 2]);
        let c = changes(readings);
        let d = changes(s);
        assert forall|i: int| 0 <= i < s.len() implies s[i] == readings[i] by {}
        assert(!d.contains(n - 1));
        if changed {
            assert(c =~= d.insert(n - 1));
            assert(last_change(readings, n - 1));
        } else {
            assert(c =~= d);
            let i = choose|i: int|
                0 <= i < s.len() && #[trigger] last_change(s, i) && f.last_changed_ts == s[i].1;
            assert(last_change(readings, i));
        }
        let m = choose|i: int| 0 <= i < s.len() && (#[trigger] s[i]).1 == f.last_seen_ts;
        assert(readings[m].1 == f.last_seen_ts);
        assert forall|i: int| 0 <= i < n implies (#[trigger] readings[i]).1 <= g.last_seen_ts by {
            if i < n - 1 {
                assert(s[i].1 <= f.last_seen_ts);
            }
        }
        assert forall|j: int| 0 <= j < g.last_5_ts.len() implies #[trigger] g.last_5_ts[j]
            == readings[n - g.last_5_ts.len() + j].1 by {
            if f.last_5_ts.len() < 5 {
                if j < f.last_5_ts.len() {
                    assert(f.last_5_ts[j] == s[s.len() - f.last_5_ts.len() + j].1);
                }
            } else if j < 4 {
                assert(f.last_5_ts[j + 1] == s[s.len() - f.last_5_ts.len() + j + 1].1);
            }
        }
        g
    }
}

/// The values of one field leave the other fields of its uid as they were.
pub proof fn law_history_of_others(
    cache: CacheView,
    uid: Seq<char>,
    equipment_tag: Option<Seq<char>>,
    name: Seq<char>,
    measurement: Seq<char>,
    readings: Seq<Reading>,
    f: FieldView,
)
    requires
        cache.valid(),
        f.name != name || f.measurement != measurement,
    ensures
        recording::stands(
            after_readings(cache, uid, equipment_tag, name, measurement, readings),
            uid,
            f,
        ) <==> recording::stands(cache, uid, f),
        after_readings(cache, uid, equipment_tag, name, measurement, readings).valid(),
    decreases readings.len(),
{
    if readings.len() > 0 {
        let s = readings.drop_last();
        law_history_of_others(cache, uid, equipment_tag, name, measurement, s, f);
        let before = after_readings(cache, uid, equipment_tag, name, measurement, s);
        let set = seq![(name, readings.last().0)];
        invariants::law_recorded_valid(
            before,
            uid,
            equipment_tag,
            set,
            readings.last().1,
            measurement,
        );
        recording::law_only_named_fields(
            before,
            uid,
            equipment_tag,
            set,
            readings.last().1,
            measurement,
            f,
        );
    }
}

} // verus!
