//! What the reports tell.

use vstd::prelude::*;

use crate::cache;
use crate::cache::ValueCache;
use crate::fold;
use crate::laws::counting;
use crate::laws::history;
use crate::laws::history::Reading;
use crate::laws::recording;
use crate::laws::silence;
use crate::laws::writing;
use crate::model;
use crate::model::{CacheView, FieldView, ItemView, UidView};
use crate::order;
use crate::ranking;
use crate::ranking::EntryView;
use crate::reports;
use crate::stats_utils;
use crate::text;
use crate::value;
use crate::value::{Piece, PieceView};

verus! {

// ---------------------------------------------------------------- pieces

/// The report is made of these pieces.
pub open spec fn made_of(report: Seq<Piece>, p: Seq<PieceView>) -> bool {
    &&& report.len() == p.len()
    &&& forall|i: int|
        0 <= i < p.len() ==> match #[trigger] report[i] {
            Piece::Text(t) => p[i] == PieceView::Text(t@),
            Piece::Float(bits) => p[i] == PieceView::Float(bits),
            Piece::Deviation(s) => p[i] == PieceView::Deviation(s),
        }
}

/// A report is made of the pieces of its model.
pub proof fn lemma_made_of(report: Seq<Piece>)
    ensures
        made_of(report, value::pieces(report)),
{
    let p = value::pieces(report);
    assert(p.len() == report.len());
    assert forall|i: int| 0 <= i < p.len() implies match #[trigger] report[i] {
        Piece::Text(t) => p[i] == PieceView::Text(t@),
        Piece::Float(bits) => p[i] == PieceView::Float(bits),
        Piece::Deviation(s) => p[i] == PieceView::Deviation(s),
    } by {
        assert(p[i] == report[i]@);
    }
}

pub proof fn lemma_same_concat<T, U>(
    s: Seq<T>,
    f: spec_fn(T) -> Seq<U>,
    g: spec_fn(T) -> Seq<U>,
)
    requires
        forall|i: int| 0 <= i < s.len() ==> f(#[trigger] s[i]) == g(s[i]),
    ensures
        fold::concat(s, f) == fold::concat(s, g),
    decreases s.len(),
{
    if s.len() > 0 {
        let t = s.drop_last();
        assert forall|i: int| 0 <= i < t.len() implies f(#[trigger] t[i]) == g(t[i]) by {
            assert(t[i] == s[i]);
        }
        lemma_same_concat(t, f, g);
        assert(f(s[s.len() - 1]) == g(s[s.len() - 1]));
    }
}

// ---------------------------------------------------------------- uids and fields

/// The equipment tag of the uid, or `unknown` where it has none.
pub open spec fn tag_of(u: UidView) -> Seq<char> {
    if u.equipment_tag is Some {
        u.equipment_tag->0
    } else {
        "unknown"@
    }
}

/// The line of a field tells its own name, measurement, times, count, frequency, mean, deviation
/// and value.
pub open spec fn field_line(f: FieldView, label: Seq<char>, end: Seq<char>) -> Seq<PieceView> {
    seq![
        PieceView::Text(
            "Field: \""@ + f.name + "\", measurement: \""@ + f.measurement + "\", first seen: "@
                + text::decimal(f.first_seen_ts as int) + ", last seen: "@ + text::decimal(
                f.last_seen_ts as int,
            ) + ", seen count: "@ + text::decimal(f.seen_count as int) + ", estimated frequency: "@
                + text::decimal(f.frequency()) + ", ts_differences_mean: "@ + text::decimal(
                stats_utils::steps_mean(f.last_5_ts),
            ) + label,
        ),
        PieceView::Deviation(stats_utils::spread_of(f.last_5_ts)),
        PieceView::Text(", value: \""@),
        f.value.shown(),
        PieceView::Text("\""@ + end),
    ]
}

/// The summary names every uid, its equipment tag and its fields.
pub proof fn law_summary(c: &ValueCache, r: String)
    requires
        call_ensures(ValueCache::uids_and_fields_to_string, (c,), r),
    ensures
        r@ == summary_of(c@),
{
    lemma_summary(c@);
}

pub open spec fn summary_of(c: CacheView) -> Seq<char> {
    fold::concat(
        c.uids,
        |u: UidView|
            "Uid: \""@ + u.uid + "\", equipment-tag: \""@ + tag_of(u) + "\"\nFields: "@
                + text::joined(Seq::new(u.fields.len(), |k: int| u.fields[k].name), ", "@)
                + "\n\n"@,
    )
}

pub proof fn lemma_summary(c: CacheView)
    ensures
        c.summary() == summary_of(c),
{
    let g = |u: UidView|
        "Uid: \""@ + u.uid + "\", equipment-tag: \""@ + tag_of(u) + "\"\nFields: "@ + text::joined(
            Seq::new(u.fields.len(), |k: int| u.fields[k].name),
            ", "@,
        ) + "\n\n"@;
    assert forall|i: int| 0 <= i < c.uids.len() implies reports::uid_summary()(
        #[trigger] c.uids[i],
    ) == g(c.uids[i]) by {
        let u = c.uids[i];
        assert(model::names_of()(u) =~= Seq::new(u.fields.len(), |k: int| u.fields[k].name));
    }
    lemma_same_concat(c.uids, reports::uid_summary(), g);
}

/// The full report tells of every uid, and of every field under its uid.
pub proof fn law_everything(c: &ValueCache, r: Vec<Piece>)
    requires
        call_ensures(ValueCache::everything_to_string, (c,), r),
    ensures
        made_of(r@, everything_of(c@)),
{
    lemma_everything(c@);
    lemma_made_of(r@);
}

pub open spec fn everything_of(c: CacheView) -> Seq<PieceView> {
    fold::concat(
        c.uids,
        |u: UidView|
            seq![
                PieceView::Text(
                    "Uid: \""@ + u.uid + "\", equipment-tag \""@ + tag_of(u)
                        + "\", first seen: \""@ + text::decimal(u.first_seen_ts as int)
                        + "\", last seen: \""@ + text::decimal(u.last_seen_ts as int) + "\"\n"@,
                ),
            ] + fold::concat(
                u.fields,
                |f: FieldView| field_line(f, ", differences_stddev: "@, "\n\n"@),
            ) + seq![PieceView::Text("\n"@)],
    )
}

pub proof fn lemma_everything(c: CacheView)
    ensures
        c.everything() == everything_of(c),
{
    let h = |f: FieldView| field_line(f, ", differences_stddev: "@, "\n\n"@);
    let g = |u: UidView|
        seq![
            PieceView::Text(
                "Uid: \""@ + u.uid + "\", equipment-tag \""@ + tag_of(u) + "\", first seen: \""@
                    + text::decimal(u.first_seen_ts as int) + "\", last seen: \""@ + text::decimal(
                    u.last_seen_ts as int,
                ) + "\"\n"@,
            ),
        ] + fold::concat(u.fields, h) + seq![PieceView::Text("\n"@)];
    assert forall|i: int| 0 <= i < c.uids.len() implies reports::uid_everything()(
        #[trigger] c.uids[i],
    ) == g(c.uids[i]) by {
        let u = c.uids[i];
        assert forall|k: int| 0 <= k < u.fields.len() implies reports::everything_line()(
            #[trigger] u.fields[k],
        ) == h(u.fields[k]) by {
            assert(reports::everything_line()(u.fields[k]) =~= h(u.fields[k]));
        }
        lemma_same_concat(u.fields, reports::everything_line(), h);
    }
    lemma_same_concat(c.uids, reports::uid_everything(), g);
}

/// The fields that were not seen when their uid was last seen are told, each with both times.
pub proof fn law_mismatches(c: &ValueCache, r: String)
    requires
        call_ensures(ValueCache::get_field_and_uid_ts_mismatches, (c,), r),
    ensures
        r@ == fold::concat(
            c@.uids,
            |u: UidView|
                fold::concat(
                    u.fields,
                    |f: FieldView|
                        if f.last_seen_ts == u.last_seen_ts {
                            Seq::<char>::empty()
                        } else {
                            "Uid \""@ + u.uid + "\" (equipment-tag "@ + tag_of(u)
                                + ") last seen "@ + text::decimal(u.last_seen_ts as int)
                                + ", but field \""@ + f.name + "\" last seen "@ + text::decimal(
                                f.last_seen_ts as int,
                            ) + "\n"@
                        },
                ),
        ),
{
    let g = |u: UidView|
        fold::concat(
            u.fields,
            |f: FieldView|
                if f.last_seen_ts == u.last_seen_ts {
                    Seq::<char>::empty()
                } else {
                    "Uid \""@ + u.uid + "\" (equipment-tag "@ + tag_of(u) + ") last seen "@
                        + text::decimal(u.last_seen_ts as int) + ", but field \""@ + f.name
                        + "\" last seen "@ + text::decimal(f.last_seen_ts as int) + "\n"@
                },
        );
    let all = c@.uids;
    assert forall|i: int| 0 <= i < all.len() implies reports::uid_mismatches()(#[trigger] all[i])
        == g(all[i]) by {
        let u = all[i];
        let h = |f: FieldView|
            if f.last_seen_ts == u.last_seen_ts {
                Seq::<char>::empty()
            } else {
                "Uid \""@ + u.uid + "\" (equipment-tag "@ + tag_of(u) + ") last seen "@
                    + text::decimal(u.last_seen_ts as int) + ", but field \""@ + f.name
                    + "\" last seen "@ + text::decimal(f.last_seen_ts as int) + "\n"@
            };
        lemma_same_concat(u.fields, |f: FieldView| u.mismatch(f), h);
    }
    lemma_same_concat(all, reports::uid_mismatches(), g);
}

/// The report on a uid tells of each of its fields, and of an unknown uid that it is none.
pub open spec fn uid_report(c: CacheView, uid: Seq<char>, report: Seq<Piece>) -> bool {
    &&& !recording::has_uid(c, uid) ==> made_of(report, seq![PieceView::Text("Uid not found"@)])
    &&& forall|i: int|
        0 <= i < c.uids.len() && (#[trigger] c.uids[i]).uid == uid ==> made_of(
            report,
            fold::concat(
                c.uids[i].fields,
                |f: FieldView| field_line(f, ", ts_differences_stddev: "@, "\n"@),
            ) + seq![PieceView::Text("\n"@)],
        )
}

pub proof fn lemma_uid_report(c: CacheView, uid: Seq<char>, report: Seq<Piece>)
    requires
        c.valid(),
        value::pieces(report) == c.uid_info(uid),
    ensures
        uid_report(c, uid, report),
{
    lemma_made_of(report);
    assert(recording::has_uid(c, uid) <==> model::known_uid(c.uids, uid));
    let h = |f: FieldView| field_line(f, ", ts_differences_stddev: "@, "\n"@);
    assert forall|i: int| 0 <= i < c.uids.len() && (#[trigger] c.uids[i]).uid == uid implies made_of(
        report,
        fold::concat(c.uids[i].fields, h) + seq![PieceView::Text("\n"@)],
    ) by {
        let j = model::uid_place(c.uids, uid);
        assert(model::known_uid(c.uids, uid));
        assert(c.uids[j].uid == uid);
        let fields = c.uids[i].fields;
        assert forall|k: int| 0 <= k < fields.len() implies reports::uid_info_line()(
            #[trigger] fields[k],
        ) == h(fields[k]) by {
            assert(reports::uid_info_line()(fields[k]) =~= h(fields[k]));
        }
        lemma_same_concat(fields, reports::uid_info_line(), h);
    }
}

/// The report on a uid tells of each of its fields.
pub proof fn law_uid_info(c: &ValueCache, uid: &str, r: Vec<Piece>)
    requires
        c.wf(),
        call_ensures(ValueCache::get_uid_info, (c, uid), r),
    ensures
        uid_report(c@, uid@, r@),
{
    c.lemma_valid();
    lemma_uid_report(c@, uid@, r@);
}

/// What is told of a field under a uid: when and how often the field itself was seen, and its last
/// timestamps.
pub open spec fn field_report_of(uid: Seq<char>, f: FieldView) -> Seq<PieceView> {
    seq![
        PieceView::Text(
            "Uid: \""@ + uid + "\", measurement: \""@ + f.measurement + "\", last seen: "@
                + text::decimal(f.last_seen_ts as int) + ", seen_count: "@ + text::decimal(
                f.seen_count as int,
            ) + ", ts_differences_mean: "@ + text::decimal(stats_utils::steps_mean(f.last_5_ts))
                + ", ts_differences_stddev: "@,
        ),
        PieceView::Deviation(stats_utils::spread_of(f.last_5_ts)),
        PieceView::Text(", last_timestamps: "@ + stats_utils::timestamps_text(f.last_5_ts)),
    ]
}

/// The report on a field tells of that field alone.
pub open spec fn field_report(
    c: CacheView,
    uid: Seq<char>,
    measurement: Seq<char>,
    name: Seq<char>,
    report: Seq<Piece>,
) -> bool {
    &&& !recording::has_uid(c, uid) ==> made_of(report, seq![PieceView::Text("Uid not found"@)])
    &&& recording::has_uid(c, uid) && !recording::has_field(c, uid, name, measurement) ==> made_of(
        report,
        seq![PieceView::Text("No fields found for uid "@ + uid)],
    )
    &&& forall|f: FieldView|
        f.name == name && f.measurement == measurement && #[trigger] recording::stands(c, uid, f)
            ==> made_of(report, field_report_of(uid, f))
}

pub proof fn lemma_field_report(
    c: CacheView,
    uid: Seq<char>,
    measurement: Seq<char>,
    name: Seq<char>,
    report: Seq<Piece>,
)
    requires
        c.valid(),
        value::pieces(report) == c.uid_field_info(uid, measurement, name),
    ensures
        field_report(c, uid, measurement, name, report),
{
    lemma_made_of(report);
    assert(recording::has_uid(c, uid) <==> model::known_uid(c.uids, uid));
    if model::known_uid(c.uids, uid) && !recording::has_field(c, uid, name, measurement) {
        recording::lemma_no_field(c, uid, name, measurement);
    }
    assert forall|f: FieldView|
        f.name == name && f.measurement == measurement && #[trigger] recording::stands(
            c,
            uid,
            f,
        ) implies made_of(report, field_report_of(uid, f)) by {
        let _ = recording::lemma_stands(c, uid, f);
        assert(c.uid_field_info(uid, measurement, name) =~= field_report_of(uid, f));
    }
}

/// The report on a field tells of that field alone.
pub proof fn law_uid_field_info(
    c: &ValueCache,
    uid: &str,
    measurement: &str,
    name: &str,
    r: Vec<Piece>,
)
    requires
        c.wf(),
        call_ensures(ValueCache::get_uid_field_info, (c, uid, measurement, name), r),
    ensures
        field_report(c@, uid@, measurement@, name@, r@),
{
    c.lemma_valid();
    lemma_field_report(c@, uid@, measurement@, name@, r@);
}

/// A line for the uid of a field that does not name the field leaves the whole report on the field
/// as it was.
pub proof fn law_field_info_unmoved(
    before: &ValueCache,
    after: &ValueCache,
    uid: &str,
    measurement: &str,
    name: &str,
    equipment_tag: Option<Seq<char>>,
    set: Seq<ItemView>,
    t: i64,
    line_measurement: Seq<char>,
    first: Vec<Piece>,
    second: Vec<Piece>,
)
    requires
        before.wf(),
        after.wf(),
        after@ == before@.recorded(uid@, equipment_tag, set, t, line_measurement),
        recording::has_field(before@, uid@, name@, measurement@),
        measurement@ != line_measurement || forall|j: int|
            0 <= j < set.len() ==> (#[trigger] set[j]).0 != name@,
        call_ensures(ValueCache::get_uid_field_info, (before, uid, measurement, name), first),
        call_ensures(ValueCache::get_uid_field_info, (after, uid, measurement, name), second),
    ensures
        value::pieces(first@) == value::pieces(second@),
{
    before.lemma_valid();
    after.lemma_valid();
    let f = choose|f: FieldView| #[trigger]
        recording::stands(before@, uid@, f) && f.name == name@ && f.measurement == measurement@;
    recording::law_only_named_fields(
        before@,
        uid@,
        equipment_tag,
        set,
        t,
        line_measurement,
        f,
    );
    let _ = recording::lemma_stands(before@, uid@, f);
    let _ = recording::lemma_stands(after@, uid@, f);
}

/// The report on a field counts the values that were recorded for it, and tells the latest of their
/// timestamps and the last five.
pub proof fn law_field_info_counts_values(
    before: CacheView,
    after: &ValueCache,
    uid: &str,
    measurement: &str,
    name: &str,
    equipment_tag: Option<Seq<char>>,
    readings: Seq<Reading>,
    r: Vec<Piece>,
) -> (f: FieldView)
    requires
        before.valid(),
        !recording::has_field(before, uid@, name@, measurement@),
        readings.len() > 0,
        after.wf(),
        after@ == history::after_readings(
            before,
            uid@,
            equipment_tag,
            name@,
            measurement@,
            readings,
        ),
        call_ensures(ValueCache::get_uid_field_info, (after, uid, measurement, name), r),
    ensures
        history::tells(f, name@, measurement@, readings),
        r@.len() == 3,
        r@[0] is Text,
        r@[0]->Text_0@ == "Uid: \""@ + uid@ + "\", measurement: \""@ + measurement@
            + "\", last seen: "@ + text::decimal(f.last_seen_ts as int) + ", seen_count: "@
            + text::decimal(readings.len() as int) + ", ts_differences_mean: "@ + text::decimal(
            stats_utils::steps_mean(f.last_5_ts),
        ) + ", ts_differences_stddev: "@,
        r@[1] is Deviation,
        writing::spread_is(f.last_5_ts, r@[1]->Deviation_0),
        r@[2] is Text,
        r@[2]->Text_0@ == ", last_timestamps: "@ + stats_utils::timestamps_text(f.last_5_ts),
{
    let f = history::law_history(
        before,
        uid@,
        equipment_tag,
        name@,
        measurement@,
        readings,
    );
    law_uid_field_info(after, uid, measurement, name, r);
    assert(made_of(r@, field_report_of(uid@, f)));
    let p = field_report_of(uid@, f);
    assert(p.len() == 3);
    match r@[0] {
        Piece::Text(t) => {
            assert(p[0] == PieceView::Text(t@));
        },
        _ => {},
    }
    match r@[1] {
        Piece::Deviation(s) => {
            assert(p[1] == PieceView::Deviation(s));
        },
        _ => {},
    }
    match r@[2] {
        Piece::Text(t) => {
            assert(p[2] == PieceView::Text(t@));
        },
        _ => {},
    }
    writing::lemma_spread(f.last_5_ts);
    f
}

// ---------------------------------------------------------------- what is inactive

/// The fields stand in the order of their names, and of their measurements where the names are the
/// same.
pub open spec fn ordered(o: Seq<FieldView>) -> bool {
    forall|i: int, j: int|
        0 <= i < j < o.len() ==> {
            let a = #[trigger] o[i];
            let b = #[trigger] o[j];
            if a.name == b.name {
                writing::in_order(a.measurement, b.measurement)
            } else {
                writing::in_order(a.name, b.name)
            }
        }
}

/// Fields put in order are the same fields, in the order of their names and measurements.
pub proof fn law_ordered(s: Seq<FieldView>)
    ensures
        order::key_order(s).to_multiset() == s.to_multiset(),
        ordered(order::key_order(s)),
{
    order::law_key_order(s);
    let o = order::key_order(s);
    assert forall|i: int, j: int| 0 <= i < j < o.len() implies {
        let a = #[trigger] o[i];
        let b = #[trigger] o[j];
        if a.name == b.name {
            writing::in_order(a.measurement, b.measurement)
        } else {
            writing::in_order(a.name, b.name)
        }
    } by {
        assert(order::field_not_after(o[i], o[j]));
        writing::law_order(o[i].measurement, o[j].measurement);
        writing::law_order(o[i].name, o[j].name);
    }
}

/// What is told of a uid: that it is inactive where nothing of it is alive, and its silent fields in
/// order.
pub open spec fn inactive_note(u: UidView, added: int, now: int) -> Seq<char> {
    let o = order::key_order(u.fields.filter(|f: FieldView| silence::silent(f, added, now)));
    let head = if silence::alive(u, added, now) {
        Seq::empty()
    } else {
        "Inactive Uid (no data at all for more than "@ + text::decimal(added)
            + " seconds, current age is "@ + text::decimal(now - u.last_seen_ts)
            + " seconds): uid "@ + u.uid + " equipment-tag "@ + tag_of(u) + "\n"@
    };
    let title = if silence::alive(u, added, now) {
        "Inactive fields (no field data for more than "@ + text::decimal(added)
            + " seconds) for Uid \""@ + u.uid + "\" equipment-tag \""@ + tag_of(u) + "\":\n"@
    } else {
        "Fields expected for Uid \""@ + u.uid + "\":\n"@
    };
    if o.len() == 0 {
        head
    } else {
        head + title + fold::concat(
            o,
            |f: FieldView|
                "\""@ + f.name + "\" (measurement: \""@ + f.measurement + "\", age: "@
                    + text::decimal(now - f.last_seen_ts) + ")\n"@,
        ) + "\n"@
    }
}

/// What is told of all uids.
pub open spec fn inactive_notes(uids: Seq<UidView>, added: int, now: int) -> Seq<char> {
    fold::concat(uids, |u: UidView| inactive_note(u, added, now))
}

pub proof fn lemma_inactive_notes(c: CacheView, added: int, now: int)
    requires
        c.valid(),
    ensures
        c.inactive_text(added, now) == inactive_notes(c.uids, added, now),
{
    silence::lemma_timely(c);
    let g = |u: UidView| inactive_note(u, added, now);
    assert forall|i: int| 0 <= i < c.uids.len() implies reports::uid_inactive_text(added, now)(
        #[trigger] c.uids[i],
    ) == g(c.uids[i]) by {
        let u = c.uids[i];
        let q = |f: FieldView| silence::silent(f, added, now);
        assert forall|k: int| 0 <= k < u.fields.len() implies model::inactive_field(added, now)(
            #[trigger] u.fields[k],
        ) == q(u.fields[k]) && u.fields[k].first_seen_ts <= u.fields[k].last_seen_ts by {
            assert(c.uids[i].fields[k].first_seen_ts <= c.uids[i].fields[k].last_seen_ts);
            silence::law_silent(u.fields[k], added, now);
        }
        silence::law_uid_silent(u, added, now);
        silence::lemma_same_filter(u.fields, model::inactive_field(added, now), q);
        let o = order::key_order(u.fields.filter(q));
        let h = |f: FieldView|
            "\""@ + f.name + "\" (measurement: \""@ + f.measurement + "\", age: "@ + text::decimal(
                now - f.last_seen_ts,
            ) + ")\n"@;
        lemma_same_concat(o, reports::inactive_line(now), h);
    }
    lemma_same_concat(c.uids, reports::uid_inactive_text(added, now), g);
}

/// What is listed as inactive is what is silent, uid by uid.
pub proof fn law_list_inactive(c: &ValueCache, seconds: Option<u64>, now: i64, r: String)
    requires
        c.wf(),
        call_ensures(ValueCache::list_inactive_at, (c, seconds, now), r),
    ensures
        r@ == inactive_notes(c@.uids, silence::threshold(c@, seconds), now as int),
{
    c.lemma_valid();
    lemma_inactive_notes(c@, silence::threshold(c@, seconds), now as int);
}

/// By the clock too, what is listed as inactive is what is silent, uid by uid.
pub proof fn law_list_inactive_now(c: &ValueCache, seconds: Option<u64>, r: String)
    requires
        c.wf(),
        call_ensures(ValueCache::list_inactive, (c, seconds), r),
    ensures
        exists|now: i64|
            r@ == #[trigger] inactive_notes(
                c@.uids,
                silence::threshold(c@, seconds),
                now as int,
            ),
{
    c.lemma_valid();
    let now = choose|now: i64| #[trigger] c@.inactive_text(c@.added(seconds), now as int) == r@;
    lemma_inactive_notes(c@, silence::threshold(c@, seconds), now as int);
    assert(r@ == inactive_notes(c@.uids, silence::threshold(c@, seconds), now as int));
}

/// What a removal of everything silent tells: how many uids went, with how many fields, and how
/// many fields of uids that stay.
pub open spec fn removal_told(uids: Seq<UidView>, added: int, now: int, told: Seq<char>) -> bool {
    told == "Inactive uid removed: "@ + text::decimal(
        uids.len() - silence::left_alive(uids, added, now).len(),
    ) + ", fields count for these uids: "@ + text::decimal(
        counting::fields_of_silent_uids(uids, added, now).len() as int,
    ) + "\nInactive fields in active uids removed: "@ + text::decimal(
        counting::silent_fields_of_alive_uids(uids, added, now).len() as int,
    )
}

pub proof fn lemma_removal_told(c: CacheView, added: int, now: int)
    requires
        c.valid(),
    ensures
        removal_told(c.uids, added, now, cache::removal_text(c, added, now)),
{
    counting::lemma_removed_counts(c, added, now);
    silence::law_left_alive(c, added, now);
    crate::laws::law_removal_counts(c, added, now);
}

/// A removal of everything inactive leaves what is alive, tells how much went, and touches nothing
/// else.
pub proof fn law_remove_all(c: &mut ValueCache, seconds: Option<u64>, now: i64, r: String)
    requires
        c.wf(),
        call_ensures(ValueCache::remove_inactive_uids_and_fields_at, (c, seconds, now), r),
    ensures
        final(c)@.uids == silence::left_alive(
            old(c)@.uids,
            silence::threshold(old(c)@, seconds),
            now as int,
        ),
        silence::same_but_uids(old(c)@, final(c)@),
        removal_told(old(c)@.uids, silence::threshold(old(c)@, seconds), now as int, r@),
{
    c.lemma_valid();
    silence::law_left_alive(c@, silence::threshold(c@, seconds), now as int);
    lemma_removal_told(c@, silence::threshold(c@, seconds), now as int);
}

/// By the clock too, a removal of everything inactive leaves what is alive and tells how much went.
pub proof fn law_remove_all_now(c: &mut ValueCache, seconds: Option<u64>, r: String)
    requires
        c.wf(),
        call_ensures(ValueCache::remove_inactive_uids_and_fields, (c, seconds), r),
    ensures
        silence::same_but_uids(old(c)@, final(c)@),
        exists|now: i64|
            final(c)@.uids == #[trigger] silence::left_alive(
                old(c)@.uids,
                silence::threshold(old(c)@, seconds),
                now as int,
            ) && removal_told(
                old(c)@.uids,
                silence::threshold(old(c)@, seconds),
                now as int,
                r@,
            ),
{
    c.lemma_valid();
    let now = choose|now: i64|
        final(c)@ == #[trigger] c@.pruned(c@.added(seconds), now as int) && r@
            == cache::removal_text(c@, c@.added(seconds), now as int);
    silence::law_left_alive(c@, silence::threshold(c@, seconds), now as int);
    lemma_removal_told(c@, silence::threshold(c@, seconds), now as int);
    assert(final(c)@.uids == silence::left_alive(
        c@.uids,
        silence::threshold(c@, seconds),
        now as int,
    ));
}

// ---------------------------------------------------------------- the least changed fields

/// The names and change counts of all fields, uid by uid.
pub open spec fn change_counts(uids: Seq<UidView>) -> Seq<EntryView> {
    fold::concat(
        uids,
        |u: UidView|
            Seq::new(u.fields.len(), |k: int| (u.fields[k].name, u.fields[k].changed_count)),
    )
}

/// `o` is `s` by ascending counts, and the entries of one count stand in it as they stand in `s`.
pub open spec fn ranked(s: Seq<EntryView>, o: Seq<EntryView>) -> bool {
    &&& o.len() == s.len()
    &&& forall|i: int, j: int| 0 <= i <= j < o.len() ==> (#[trigger] o[i]).1 <= (#[trigger] o[j]).1
    &&& forall|n: nat| #[trigger] of_count(o, n) == of_count(s, n)
}

/// The entries of one count.
pub open spec fn of_count(s: Seq<EntryView>, n: nat) -> Seq<EntryView> {
    s.filter(|e: EntryView| e.1 == n)
}

pub proof fn lemma_ranked(c: CacheView)
    ensures
        ranked(change_counts(c.uids), ranking::ranking(c.entries())),
        c.entries() == change_counts(c.uids),
{
    let g = |u: UidView|
        Seq::new(u.fields.len(), |k: int| (u.fields[k].name, u.fields[k].changed_count));
    assert forall|i: int| 0 <= i < c.uids.len() implies ranking::entries_of()(#[trigger] c.uids[i])
        == g(c.uids[i]) by {
        assert(ranking::entries_of()(c.uids[i]) =~= g(c.uids[i]));
    }
    lemma_same_concat(c.uids, ranking::entries_of(), g);
    let s = c.entries();
    ranking::law_ranking(s);
    let o = ranking::ranking(s);
    assert forall|n: nat| #[trigger] of_count(o, n) == of_count(s, n) by {
        assert(ranking::counted(n) =~= (|e: EntryView| e.1 == n));
        assert(o.filter(ranking::counted(n)) == s.filter(ranking::counted(n)));
    }
}

/// The fields that changed least come first, as many as are asked for, and those that changed
/// equally often as they stand.
pub proof fn law_least_changed(c: &ValueCache, count: usize, r: Vec<(String, usize)>) -> (o: Seq<
    EntryView,
>)
    requires
        call_ensures(ValueCache::least_changed, (c, count), r),
    ensures
        ranked(change_counts(c@.uids), o),
        r@.len() == (if count < o.len() {
            count as int
        } else {
            o.len() as int
        }),
        forall|i: int|
            0 <= i < r@.len() ==> (#[trigger] r@[i]).0@ == o[i].0 && r@[i].1 == o[i].1,
{
    lemma_ranked(c@);
    let o = ranking::ranking(c@.entries());
    let v = ranking::entry_views(r@);
    assert(v.len() == r@.len());
    assert forall|i: int| 0 <= i < r@.len() implies (#[trigger] r@[i]).0@ == o[i].0 && r@[i].1
        == o[i].1 by {
        assert(v[i] == (r@[i].0@, r@[i].1 as nat));
    }
    o
}

} // verus!
