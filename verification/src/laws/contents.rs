//! What is found in a cache, and what its parts stand for.

use vstd::prelude::*;

use crate::activity::Ages;
use crate::cache;
use crate::cache::{FieldInfo, Totals, UidInfo, ValueCache};
use crate::config;
use crate::config::{Precision, ServerMode};
use crate::consumer;
use crate::consumer::{Line, LineOutcome, OutcomeView};
use crate::laws::recording;
use crate::laws::silence;
use crate::model;
use crate::stats_utils::Last5Timestamps;
use crate::value::{InfluxValue, ValueView};

verus! {

/// A field stands for what it holds.
pub proof fn law_field(f: FieldInfo)
    ensures
        f@.name == f.name@,
        f@.measurement == f.measurement@,
        f@.value == f.value@,
        f@.first_seen_ts == f.first_seen_ts,
        f@.last_seen_ts == f.last_seen_ts,
        f@.last_changed_ts == f.last_changed_ts,
        f@.last_sent_ts == f.last_sent_ts,
        f@.last_5_ts == f.last_5_ts@,
        f@.seen_count == f.seen_count,
        f@.changed_count == f.changed_count,
{
}

/// A value stands for what it holds.
pub proof fn law_value(v: InfluxValue)
    ensures
        match v {
            InfluxValue::I64(x) => v@ == ValueView::I64(x),
            InfluxValue::U64(x) => v@ == ValueView::U64(x),
            InfluxValue::F64(x) => v@ == ValueView::F64(x),
            InfluxValue::String(x) => v@ == ValueView::String(x@),
            InfluxValue::Boolean(x) => v@ == ValueView::Boolean(x),
        },
{
}

/// A uid stands for what it holds, and so does each of its fields.
pub proof fn law_uid(u: UidInfo)
    ensures
        u@.uid == u.uid@,
        u@.first_seen_ts == u.first_seen_ts,
        u@.last_seen_ts == u.last_seen_ts,
        u@.seen_count == u.seen_count,
        u.equipment_tag is Some ==> u@.equipment_tag == Some(u.equipment_tag->0@),
        u.equipment_tag is None ==> u@.equipment_tag is None,
        u@.fields.len() == u.fields@.len(),
        forall|k: int| 0 <= k < u.fields@.len() ==> #[trigger] u@.fields[k] == u.fields@[k]@,
{
}

/// A line stands for what it holds.
pub proof fn law_line(l: Line)
    ensures
        l@.measurement == l.measurement@,
        l@.timestamp == l.timestamp,
        l.tags is None ==> l@.tags is None,
        l.tags is Some ==> l@.tags is Some && l@.tags->0.len() == l.tags->0@.len() && forall|i: int|
            0 <= i < l.tags->0@.len() ==> (#[trigger] l@.tags->0[i]).0 == l.tags->0@[i].0@
                && l@.tags->0[i].1 == l.tags->0@[i].1@,
        l@.fields.len() == l.fields@.len(),
        forall|i: int|
            0 <= i < l.fields@.len() ==> (#[trigger] l@.fields[i]).0 == l.fields@[i].0@
                && l@.fields[i].1 == l.fields@[i].1@,
        consumer::line_view(Ok(l)) == Ok::<consumer::LineView, Seq<char>>(l@),
{
}

/// What is no line stands for the reason, and an outcome for itself.
pub proof fn law_outcome(e: String, o: LineOutcome)
    ensures
        consumer::line_view(Err(e)) == Err::<consumer::LineView, Seq<char>>(e@),
        o is Unparseable <==> o@ is Unparseable,
        o is Unparseable ==> o@ == OutcomeView::Unparseable(o->Unparseable_0@),
        o is Untagged <==> o@ is Untagged,
        o is NoUid <==> o@ is NoUid,
        o is Recorded <==> o@ is Recorded,
        o is CountersFull <==> o@ is CountersFull,
{
}

/// Recording hands over the uid, the tag, the values, the timestamp and the measurement as they are
/// given.
pub proof fn law_add_or_update_fields(
    c: &mut ValueCache,
    uid: &str,
    equipment_tag: Option<String>,
    set: &Vec<(String, InfluxValue)>,
    t: i64,
    measurement: &str,
    tag: Option<Seq<char>>,
)
    requires
        call_ensures(
            ValueCache::add_or_update_fields,
            (c, uid, equipment_tag, set, t, measurement),
            (),
        ),
        equipment_tag is Some ==> tag == Some(equipment_tag->0@),
        equipment_tag is None ==> tag is None,
    ensures
        final(c)@ == old(c)@.recorded(
            uid@,
            tag,
            Seq::new(set@.len(), |i: int| (set@[i].0@, set@[i].1@)),
            t,
            measurement@,
        ),
        final(c).wf(),
{
    assert(cache::item_views(set@) =~= Seq::new(
        set@.len(),
        |i: int| (set@[i].0@, set@[i].1@),
    ));
}

/// A uid is found exactly where the cache has it.
pub proof fn law_uid_found(c: &ValueCache, uid: &str, r: Option<&UidInfo>)
    requires
        c.wf(),
        call_ensures(ValueCache::uid, (c, uid), r),
    ensures
        r is Some <==> recording::has_uid(c@, uid@),
        r is Some ==> r->0@.uid == uid@ && exists|i: int|
            0 <= i < c@.uids.len() && #[trigger] c@.uids[i] == r->0@,
{
    assert(recording::has_uid(c@, uid@) <==> model::known_uid(c@.uids, uid@));
    if r is Some {
        let i = model::uid_place(c@.uids, uid@);
        assert(c@.uids[i].uid == uid@);
    }
}

/// A field is found exactly where the uid has one of that name and measurement.
pub proof fn law_field_found(
    u: &UidInfo,
    name: &str,
    measurement: &str,
    r: Option<&FieldInfo>,
)
    requires
        call_ensures(UidInfo::field, (u, name, measurement), r),
    ensures
        r is Some <==> exists|k: int|
            0 <= k < u@.fields.len() && (#[trigger] u@.fields[k]).name == name@
                && u@.fields[k].measurement == measurement@,
        r is Some ==> r->0@.name == name@ && r->0@.measurement == measurement@ && exists|k: int|
            0 <= k < u@.fields.len() && #[trigger] u@.fields[k] == r->0@,
{
    let fields = u@.fields;
    if r is Some {
        let k = model::field_place(fields, name@, measurement@);
        assert(fields[k].is(name@, measurement@));
    } else if exists|k: int|
        0 <= k < u@.fields.len() && (#[trigger] u@.fields[k]).name == name@
            && u@.fields[k].measurement == measurement@ {
        let k = choose|k: int|
            0 <= k < u@.fields.len() && (#[trigger] u@.fields[k]).name == name@
                && u@.fields[k].measurement == measurement@;
        assert(fields[k].is(name@, measurement@));
    }
}

/// What a cache gives out of itself is what it holds.
pub proof fn law_parts(
    c: &ValueCache,
    seconds: Option<u64>,
    t: Totals,
    measurement: &str,
    precision: Precision,
    uids: &Vec<UidInfo>,
    added: u64,
)
    requires
        call_ensures(ValueCache::totals, (c,), t),
        call_ensures(ValueCache::output_measurement, (c,), measurement),
        call_ensures(ValueCache::precision, (c,), precision),
        call_ensures(ValueCache::uids, (c,), uids),
        call_ensures(ValueCache::added_seconds, (c, seconds), added),
    ensures
        t.created_timestamp == c@.created_timestamp,
        t.first_value_ts == c@.first_value_ts,
        t.last_value_ts == c@.last_value_ts,
        t.kafka_message_count == c@.kafka_message_count,
        t.ilp_line_count == c@.ilp_line_count,
        t.fields_seen_count == c@.fields_seen_count,
        t.fields_changed_count == c@.fields_changed_count,
        t.fields_sent_changed_count == c@.fields_sent_changed_count,
        t.fields_sent_timeout_count == c@.fields_sent_timeout_count,
        t.fields_sent_initial_count == c@.fields_sent_initial_count,
        t.fields_sent_suppressed_count == c@.fields_sent_suppressed_count,
        measurement@ == c@.output_measurement,
        precision == c@.precision,
        uids@.len() == c@.uids.len(),
        forall|i: int| 0 <= i < uids@.len() ==> (#[trigger] uids@[i])@ == c@.uids[i],
        added == silence::threshold(c@, seconds),
{
    let v = cache::uid_views(uids@);
    assert(v.len() == uids@.len());
    assert forall|i: int| 0 <= i < uids@.len() implies (#[trigger] uids@[i])@ == c@.uids[i] by {
        assert(v[i] == uids@[i]@);
    }
}

/// Counting a message or a line adds one to its count and touches nothing else.
pub proof fn law_counted(c: &mut ValueCache, d: &mut ValueCache)
    requires
        call_ensures(ValueCache::count_message, (c,), ()),
        call_ensures(ValueCache::count_line, (d,), ()),
    ensures
        silence::same_but_uids(
            old(c)@,
            (model::CacheView {
                kafka_message_count: old(c)@.kafka_message_count,
                ..final(c)@
            }),
        ),
        final(c)@.kafka_message_count == old(c)@.kafka_message_count + 1,
        final(c)@.uids == old(c)@.uids,
        silence::same_but_uids(
            old(d)@,
            (model::CacheView { ilp_line_count: old(d)@.ilp_line_count, ..final(d)@ }),
        ),
        final(d)@.ilp_line_count == old(d)@.ilp_line_count + 1,
        final(d)@.uids == old(d)@.uids,
{
}

/// Ages stand for what they hold.
pub proof fn law_ages(a: Ages)
    ensures
        a@.min == a.min,
        a@.max == a.max,
        a@.average == a.average,
{
}

/// Timestamps are made, cloned, measured and taken out from the front.
pub proof fn law_timestamps(
    t: &Last5Timestamps,
    x: i64,
    a: Last5Timestamps,
    b: Last5Timestamps,
    d: Last5Timestamps,
    n: usize,
    p: &mut Last5Timestamps,
    taken: Option<i64>,
    q: &mut Last5Timestamps,
)
    requires
        call_ensures(Last5Timestamps::new, (), a),
        call_ensures(Last5Timestamps::new_with_val, (x,), b),
        call_ensures(Last5Timestamps::clone, (t,), d),
        call_ensures(Last5Timestamps::len, (t,), n),
        call_ensures(Last5Timestamps::pop, (p,), taken),
        call_ensures(Last5Timestamps::drop_front, (q,), ()),
    ensures
        a@.len() == 0,
        b@.len() == 1 && b@[0] == x,
        d@ == t@,
        n == t@.len(),
        old(p)@.len() == 0 ==> taken is None && final(p)@ == old(p)@,
        old(p)@.len() > 0 ==> taken is Some && seq![taken->0] + final(p)@ == old(p)@,
        old(q)@.len() == 0 ==> final(q)@ == old(q)@,
        old(q)@.len() > 0 ==> seq![old(q)@[0]] + final(q)@ == old(q)@,
{
    if p@.len() > 0 {
        assert(seq![taken->0] + final(p)@ =~= p@);
    }
    if q@.len() > 0 {
        assert(seq![q@[0]] + final(q)@ =~= q@);
    }
}

/// The server listens with TLS exactly where it is enabled and both files are given, with those
/// files; and there is no way to listen where it is enabled and one is missing.
pub proof fn law_server_mode(
    enabled: bool,
    cert: Option<String>,
    key: Option<String>,
    r: Option<ServerMode>,
)
    requires
        call_ensures(config::server_mode, (enabled, cert, key), r),
    ensures
        !enabled ==> r == Some(ServerMode::Http),
        enabled && cert is Some && key is Some ==> r is Some && r->0 is Https && r->0->cert_file
            == cert->0 && r->0->key_file == key->0,
        enabled && (cert is None || key is None) ==> r is None,
{
}

} // verus!
