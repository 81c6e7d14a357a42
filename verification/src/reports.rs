//! The reports that the cache gives of its uids and fields.

use vstd::prelude::*;
use vstd::string::*;

use crate::cache;
use crate::cache::{FieldInfo, UidInfo, ValueCache};
use crate::fold;
use crate::invariants;
use crate::model;
use crate::model::{CacheView, FieldView, UidView};
use crate::order;
use crate::stats_utils;
use crate::stats_utils::curtime;
use crate::text;
use crate::value;
use crate::value::{Piece, PieceView};

verus! {

// ---------------------------------------------------------------- what the reports say

impl FieldView {
    /// The line of a field, with its deviation under `label` and `end` behind it.
    pub open spec fn line(self, label: Seq<char>, end: Seq<char>) -> Seq<PieceView> {
        seq![
            PieceView::Text(
                "Field: \""@ + self.name + "\", measurement: \""@ + self.measurement
                    + "\", first seen: "@ + text::decimal(self.first_seen_ts as int)
                    + ", last seen: "@ + text::decimal(self.last_seen_ts as int)
                    + ", seen count: "@ + text::decimal(self.seen_count as int)
                    + ", estimated frequency: "@ + text::decimal(self.frequency())
                    + ", ts_differences_mean: "@ + text::decimal(
                    stats_utils::steps_mean(self.last_5_ts),
                ) + label,
            ),
            PieceView::Deviation(stats_utils::spread_of(self.last_5_ts)),
            PieceView::Text(", value: \""@),
            self.value.shown(),
            PieceView::Text("\""@ + end),
        ]
    }

    /// The line of an inactive field.
    pub open spec fn inactive_line(self, now: int) -> Seq<char> {
        "\""@ + self.name + "\" (measurement: \""@ + self.measurement + "\", age: "@
            + text::decimal(now - self.last_seen_ts) + ")\n"@
    }
}

/// The lines of fields in a report on everything.
pub open spec fn everything_line() -> spec_fn(FieldView) -> Seq<PieceView> {
    |f: FieldView| f.line(", differences_stddev: "@, "\n\n"@)
}

/// The lines of fields in a report on one uid.
pub open spec fn uid_info_line() -> spec_fn(FieldView) -> Seq<PieceView> {
    |f: FieldView| f.line(", ts_differences_stddev: "@, "\n"@)
}

/// The lines of inactive fields.
pub open spec fn inactive_line(now: int) -> spec_fn(FieldView) -> Seq<char> {
    |f: FieldView| f.inactive_line(now)
}

impl UidView {
    /// The uid with its equipment tag and the names of its fields.
    pub open spec fn summary(self) -> Seq<char> {
        "Uid: \""@ + self.uid + "\", equipment-tag: \""@ + self.tag_text() + "\"\nFields: "@
            + text::joined(model::names_of()(self), ", "@) + "\n\n"@
    }

    /// The uid with all its fields.
    pub open spec fn everything(self) -> Seq<PieceView> {
        seq![
            PieceView::Text(
                "Uid: \""@ + self.uid + "\", equipment-tag \""@ + self.tag_text()
                    + "\", first seen: \""@ + text::decimal(self.first_seen_ts as int)
                    + "\", last seen: \""@ + text::decimal(self.last_seen_ts as int) + "\"\n"@,
            ),
        ] + fold::concat(self.fields, everything_line()) + seq![PieceView::Text("\n"@)]
    }

    /// What is said of a field that was not seen when its uid was last seen.
    pub open spec fn mismatch(self, field: FieldView) -> Seq<char> {
        if field.last_seen_ts == self.last_seen_ts {
            Seq::empty()
        } else {
            "Uid \""@ + self.uid + "\" (equipment-tag "@ + self.tag_text() + ") last seen "@
                + text::decimal(self.last_seen_ts as int) + ", but field \""@ + field.name
                + "\" last seen "@ + text::decimal(field.last_seen_ts as int) + "\n"@
        }
    }

    /// The mismatches of all fields of the uid.
    pub open spec fn mismatches(self) -> Seq<char> {
        fold::concat(self.fields, |f: FieldView| self.mismatch(f))
    }

    /// The inactive fields of the uid, in the order of their names and measurements.
    pub open spec fn inactive_fields(self, added: int, now: int) -> Seq<FieldView> {
        order::key_order(self.fields.filter(model::inactive_field(added, now)))
    }

    /// What is said of the uid where it or some of its fields are inactive.
    pub open spec fn inactive_text(self, added: int, now: int) -> Seq<char> {
        let head = if self.inactive(added, now) {
            "Inactive Uid (no data at all for more than "@ + text::decimal(added)
                + " seconds, current age is "@ + text::decimal(now - self.last_seen_ts)
                + " seconds): uid "@ + self.uid + " equipment-tag "@ + self.tag_text() + "\n"@
        } else {
            Seq::empty()
        };
        let silent = self.inactive_fields(added, now);
        let title = if self.inactive(added, now) {
            "Fields expected for Uid \""@ + self.uid + "\":\n"@
        } else {
            "Inactive fields (no field data for more than "@ + text::decimal(added)
                + " seconds) for Uid \""@ + self.uid + "\" equipment-tag \""@ + self.tag_text()
                + "\":\n"@
        };
        if silent.len() == 0 {
            head
        } else {
            head + title + fold::concat(silent, inactive_line(now)) + "\n"@
        }
    }
}

/// The summaries of uids.
pub open spec fn uid_summary() -> spec_fn(UidView) -> Seq<char> {
    |u: UidView| u.summary()
}

/// The full reports of uids.
pub open spec fn uid_everything() -> spec_fn(UidView) -> Seq<PieceView> {
    |u: UidView| u.everything()
}

/// The mismatches of uids.
pub open spec fn uid_mismatches() -> spec_fn(UidView) -> Seq<char> {
    |u: UidView| u.mismatches()
}

/// What is said of uids with something inactive.
pub open spec fn uid_inactive_text(added: int, now: int) -> spec_fn(UidView) -> Seq<char> {
    |u: UidView| u.inactive_text(added, now)
}

impl CacheView {
    /// All uids with the names of their fields.
    pub open spec fn summary(self) -> Seq<char> {
        fold::concat(self.uids, uid_summary())
    }

    /// All uids with all their fields.
    pub open spec fn everything(self) -> Seq<PieceView> {
        fold::concat(self.uids, uid_everything())
    }

    /// All fields that were not seen when their uid was last seen.
    pub open spec fn mismatches(self) -> Seq<char> {
        fold::concat(self.uids, uid_mismatches())
    }

    /// All that is inactive.
    pub open spec fn inactive_text(self, added: int, now: int) -> Seq<char> {
        fold::concat(self.uids, uid_inactive_text(added, now))
    }

    /// The fields of one uid.
    pub open spec fn uid_info(self, uid: Seq<char>) -> Seq<PieceView> {
        if model::known_uid(self.uids, uid) {
            fold::concat(
                self.uids[model::uid_place(self.uids, uid)].fields,
                uid_info_line(),
            ) + seq![PieceView::Text("\n"@)]
        } else {
            seq![PieceView::Text("Uid not found"@)]
        }
    }

    /// One field of one uid.
    pub open spec fn uid_field_info(
        self,
        uid: Seq<char>,
        measurement: Seq<char>,
        name: Seq<char>,
    ) -> Seq<PieceView> {
        if !model::known_uid(self.uids, uid) {
            seq![PieceView::Text("Uid not found"@)]
        } else {
            let fields = self.uids[model::uid_place(self.uids, uid)].fields;
            if !model::known_field(fields, name, measurement) {
                seq![PieceView::Text("No fields found for uid "@ + uid)]
            } else {
                let f = fields[model::field_place(fields, name, measurement)];
                seq![
                    PieceView::Text(
                        "Uid: \""@ + uid + "\", measurement: \""@ + measurement
                            + "\", last seen: "@ + text::decimal(f.last_seen_ts as int)
                            + ", seen_count: "@ + text::decimal(f.seen_count as int)
                            + ", ts_differences_mean: "@ + text::decimal(
                            stats_utils::steps_mean(f.last_5_ts),
                        ) + ", ts_differences_stddev: "@,
                    ),
                    PieceView::Deviation(stats_utils::spread_of(f.last_5_ts)),
                    PieceView::Text(
                        ", last_timestamps: "@ + stats_utils::timestamps_text(f.last_5_ts),
                    ),
                ]
            }
        }
    }
}

// ---------------------------------------------------------------- the reports

/// Appends a piece to a report.
fn push_piece(report: &mut Vec<Piece>, piece: Piece)
    ensures
        value::pieces(final(report)@) == value::pieces(old(report)@).push(piece@),
{
    report.push(piece);
    assert(value::pieces(report@) =~= value::pieces(old(report)@).push(piece@));
}

/// Appends a text to a report.
fn push_text(report: &mut Vec<Piece>, t: String)
    ensures
        value::pieces(final(report)@) == value::pieces(old(report)@).push(PieceView::Text(t@)),
{
    push_piece(report, Piece::Text(t));
}

/// A report that is one text.
fn plain(t: String) -> (r: Vec<Piece>)
    ensures
        value::pieces(r@) == seq![PieceView::Text(t@)],
{
    let mut report: Vec<Piece> = Vec::new();
    push_text(&mut report, t);
    assert(value::pieces(report@) =~= seq![PieceView::Text(t@)]);
    report
}

impl FieldInfo {
    fn push_line(&self, report: &mut Vec<Piece>, label: &str, end: &str)
        ensures
            value::pieces(final(report)@) == value::pieces(old(report)@) + self@.line(
                label@,
                end@,
            ),
    {
        let mut head: String = String::new();
        head.append("Field: \"");
        head.append(self.name.as_str());
        head.append("\", measurement: \"");
        head.append(self.measurement.as_str());
        head.append("\", first seen: ");
        text::push_decimal(&mut head, self.first_seen_ts as i128);
        head.append(", last seen: ");
        text::push_decimal(&mut head, self.last_seen_ts as i128);
        head.append(", seen count: ");
        text::push_decimal(&mut head, self.seen_count as i128);
        head.append(", estimated frequency: ");
        text::push_decimal(&mut head, self.estimated_frequency());
        head.append(", ts_differences_mean: ");
        text::push_decimal(&mut head, self.last_5_ts.differences_mean());
        head.append(label);
        let mut tail: String = String::new();
        tail.append("\"");
        tail.append(end);
        let ghost line = self@.line(label@, end@);
        assert(head@ =~= line[0]->Text_0);
        assert(tail@ =~= "\""@ + end@);
        push_text(report, head);
        push_piece(report, Piece::Deviation(self.last_5_ts.differences_spread()));
        push_text(report, ", value: \"".to_owned());
        push_piece(report, self.value.shown());
        push_text(report, tail);
        assert(value::pieces(report@) =~= value::pieces(old(report)@) + line);
    }

    fn push_inactive_line(&self, out: &mut String, now: i64)
        ensures
            final(out)@ == old(out)@ + self@.inactive_line(now as int),
    {
        out.append("\"");
        out.append(self.name.as_str());
        out.append("\" (measurement: \"");
        out.append(self.measurement.as_str());
        out.append("\", age: ");
        text::push_decimal(out, now as i128 - self.last_seen_ts as i128);
        out.append(")\n");
        assert(out@ =~= old(out)@ + self@.inactive_line(now as int));
    }
}

impl UidInfo {
    fn push_tag(&self, out: &mut String)
        ensures
            final(out)@ == old(out)@ + self@.tag_text(),
    {
        match &self.equipment_tag {
            Some(tag) => out.append(tag.as_str()),
            None => out.append("unknown"),
        }
    }

    fn push_summary(&self, out: &mut String)
        ensures
            final(out)@ == old(out)@ + self@.summary(),
    {
        out.append("Uid: \"");
        out.append(self.uid.as_str());
        out.append("\", equipment-tag: \"");
        self.push_tag(out);
        out.append("\"\nFields: ");
        let ghost head = out@;
        let ghost names = model::names_of()(self@);
        let mut i: usize = 0;
        assert(out@ =~= head + text::joined(names.take(0), ", "@));
        while i < self.fields.len()
            invariant
                i <= self.fields@.len(),
                names == model::names_of()(self@),
                out@ == head + text::joined(names.take(i as int), ", "@),
            decreases self.fields.len() - i,
        {
            proof {
                fold::lemma_prefix(names, i as int);
                assert(names[i as int] == self.fields@[i as int].name@);
            }
            if i > 0 {
                out.append(", ");
            }
            out.append(self.fields[i].name.as_str());
            assert(out@ =~= head + text::joined(names.take(i + 1), ", "@));
            i = i + 1;
        }
        assert(names.take(i as int) =~= names);
        out.append("\n\n");
        assert(out@ =~= old(out)@ + self@.summary());
    }

    fn push_everything(&self, report: &mut Vec<Piece>)
        ensures
            value::pieces(final(report)@) == value::pieces(old(report)@) + self@.everything(),
    {
        let mut head: String = String::new();
        head.append("Uid: \"");
        head.append(self.uid.as_str());
        head.append("\", equipment-tag \"");
        self.push_tag(&mut head);
        head.append("\", first seen: \"");
        text::push_decimal(&mut head, self.first_seen_ts as i128);
        head.append("\", last seen: \"");
        text::push_decimal(&mut head, self.last_seen_ts as i128);
        head.append("\"\n");
        assert(head@ =~= self@.everything()[0]->Text_0);
        push_text(report, head);
        let ghost start = value::pieces(report@);
        let ghost fields = self@.fields;
        let ghost f = everything_line();
        let mut i: usize = 0;
        assert(start =~= start + fold::concat(fields.take(0), f));
        while i < self.fields.len()
            invariant
                i <= self.fields@.len(),
                fields == self@.fields,
                f == everything_line(),
                value::pieces(report@) == start + fold::concat(fields.take(i as int), f),
            decreases self.fields.len() - i,
        {
            proof {
                fold::lemma_prefix(fields, i as int);
                assert(fields[i as int] == self.fields@[i as int]@);
            }
            self.fields[i].push_line(report, ", differences_stddev: ", "\n\n");
            assert(value::pieces(report@) =~= start + fold::concat(fields.take(i + 1), f));
            i = i + 1;
        }
        assert(fields.take(i as int) =~= fields);
        push_text(report, "\n".to_owned());
        assert(value::pieces(report@) =~= value::pieces(old(report)@) + self@.everything());
    }

    fn push_mismatches(&self, out: &mut String)
        ensures
            final(out)@ == old(out)@ + self@.mismatches(),
    {
        let ghost fields = self@.fields;
        let ghost f = |f: FieldView| self@.mismatch(f);
        let ghost start = out@;
        let mut i: usize = 0;
        assert(start =~= start + fold::concat(fields.take(0), f));
        while i < self.fields.len()
            invariant
                i <= self.fields@.len(),
                fields == self@.fields,
                f == (|f: FieldView| self@.mismatch(f)),
                out@ == start + fold::concat(fields.take(i as int), f),
            decreases self.fields.len() - i,
        {
            let ghost before = out@;
            proof {
                fold::lemma_prefix(fields, i as int);
                assert(fields[i as int] == self.fields@[i as int]@);
            }
            if self.fields[i].last_seen_ts != self.last_seen_ts {
                out.append("Uid \"");
                out.append(self.uid.as_str());
                out.append("\" (equipment-tag ");
                self.push_tag(out);
                out.append(") last seen ");
                text::push_decimal(out, self.last_seen_ts as i128);
                out.append(", but field \"");
                out.append(self.fields[i].name.as_str());
                out.append("\" last seen ");
                text::push_decimal(out, self.fields[i].last_seen_ts as i128);
                out.append("\n");
            }
            assert(out@ =~= before + self@.mismatch(fields[i as int]));
            assert(out@ =~= start + fold::concat(fields.take(i + 1), f));
            i = i + 1;
        }
        assert(fields.take(i as int) =~= fields);
    }

    #[verifier::rlimit(60)]
    #[verifier::spinoff_prover]
    fn push_inactive(&self, out: &mut String, added: u64, now: i64)
        requires
            model::distinct_fields(self@.fields),
        ensures
            final(out)@ == old(out)@ + self@.inactive_text(added as int, now as int),
    {
        let uid_inactive: bool = self.is_inactive_at(added, now);
        if uid_inactive {
            out.append("Inactive Uid (no data at all for more than ");
            text::push_decimal(out, added as i128);
            out.append(" seconds, current age is ");
            text::push_decimal(out, now as i128 - self.last_seen_ts as i128);
            out.append(" seconds): uid ");
            out.append(self.uid.as_str());
            out.append(" equipment-tag ");
            self.push_tag(out);
            out.append("\n");
        }
        let places: Vec<usize> = order::inactive_places(&self.fields, added, now);
        let ghost silent = order::picked(self@.fields, places@);
        proof {
            invariants::lemma_filter_distinct_fields(
                self@.fields,
                model::inactive_field(added as int, now as int),
            );
            order::lemma_key_order(
                self@.fields.filter(model::inactive_field(added as int, now as int)),
                silent,
            );
            assert(silent == self@.inactive_fields(added as int, now as int));
        }
        if places.len() > 0 {
            if uid_inactive {
                out.append("Fields expected for Uid \"");
                out.append(self.uid.as_str());
                out.append("\":\n");
            } else {
                out.append("Inactive fields (no field data for more than ");
                text::push_decimal(out, added as i128);
                out.append(" seconds) for Uid \"");
                out.append(self.uid.as_str());
                out.append("\" equipment-tag \"");
                self.push_tag(out);
                out.append("\":\n");
            }
            let ghost start = out@;
            let ghost f = inactive_line(now as int);
            let mut i: usize = 0;
            assert(start =~= start + fold::concat(silent.take(0), f));
            while i < places.len()
                invariant
                    i <= places@.len(),
                    silent == order::picked(self@.fields, places@),
                    forall|k: int| 0 <= k < places@.len() ==> #[trigger] places@[k]
                        < self.fields@.len(),
                    f == inactive_line(now as int),
                    out@ == start + fold::concat(silent.take(i as int), f),
                decreases places.len() - i,
            {
                proof {
                    fold::lemma_prefix(silent, i as int);
                    assert(places@[i as int] < self.fields@.len());
                    assert(silent[i as int] == self.fields@[places@[i as int] as int]@);
                }
                self.fields[places[i]].push_inactive_line(out, now);
                assert(out@ =~= start + fold::concat(silent.take(i + 1), f));
                i = i + 1;
            }
            assert(silent.take(i as int) =~= silent);
            out.append("\n");
        }
        assert(out@ =~= old(out)@ + self@.inactive_text(added as int, now as int));
    }
}

impl ValueCache {
    /// All uids with the names of their fields.
    pub fn uids_and_fields_to_string(&self) -> (r: String)
        ensures
            r@ == self@.summary(),
    {
        let uids: &Vec<UidInfo> = self.uids();
        let ghost all = self@.uids;
        let ghost f = uid_summary();
        let mut out: String = String::new();
        let mut i: usize = 0;
        while i < uids.len()
            invariant
                i <= uids@.len(),
                all == cache::uid_views(uids@),
                f == uid_summary(),
                out@ == fold::concat(all.take(i as int), f),
            decreases uids.len() - i,
        {
            proof {
                fold::lemma_prefix(all, i as int);
                assert(all[i as int] == uids@[i as int]@);
            }
            uids[i].push_summary(&mut out);
            i = i + 1;
        }
        assert(all.take(i as int) =~= all);
        out
    }

    /// All uids with all their fields.
    pub fn everything_to_string(&self) -> (r: Vec<Piece>)
        ensures
            value::pieces(r@) == self@.everything(),
    {
        let uids: &Vec<UidInfo> = self.uids();
        let ghost all = self@.uids;
        let ghost f = uid_everything();
        let mut report: Vec<Piece> = Vec::new();
        let mut i: usize = 0;
        assert(value::pieces(report@) =~= fold::concat(all.take(0), f));
        while i < uids.len()
            invariant
                i <= uids@.len(),
                all == cache::uid_views(uids@),
                f == uid_everything(),
                value::pieces(report@) == fold::concat(all.take(i as int), f),
            decreases uids.len() - i,
        {
            proof {
                fold::lemma_prefix(all, i as int);
                assert(all[i as int] == uids@[i as int]@);
            }
            uids[i].push_everything(&mut report);
            i = i + 1;
        }
        assert(all.take(i as int) =~= all);
        report
    }

    /// All fields that were not seen when their uid was last seen, a line for each.
    pub fn get_field_and_uid_ts_mismatches(&self) -> (r: String)
        ensures
            r@ == self@.mismatches(),
    {
        let uids: &Vec<UidInfo> = self.uids();
        let ghost all = self@.uids;
        let ghost f = uid_mismatches();
        let mut out: String = String::new();
        let mut i: usize = 0;
        while i < uids.len()
            invariant
                i <= uids@.len(),
                all == cache::uid_views(uids@),
                f == uid_mismatches(),
                out@ == fold::concat(all.take(i as int), f),
            decreases uids.len() - i,
        {
            proof {
                fold::lemma_prefix(all, i as int);
                assert(all[i as int] == uids@[i as int]@);
            }
            uids[i].push_mismatches(&mut out);
            i = i + 1;
        }
        assert(all.take(i as int) =~= all);
        out
    }

    /// All that is inactive at `now`.
    pub fn list_inactive_at(&self, inactivity_added_seconds: Option<u64>, now: i64) -> (r: String)
        requires
            self.wf(),
        ensures
            r@ == self@.inactive_text(self@.added(inactivity_added_seconds), now as int),
    {
        proof {
            self.lemma_valid();
        }
        let added: u64 = self.added_seconds(inactivity_added_seconds);
        let uids: &Vec<UidInfo> = self.uids();
        let ghost all = self@.uids;
        let ghost f = uid_inactive_text(added as int, now as int);
        let mut out: String = String::new();
        let mut i: usize = 0;
        while i < uids.len()
            invariant
                i <= uids@.len(),
                self@.valid(),
                all == self@.uids,
                all == cache::uid_views(uids@),
                f == uid_inactive_text(added as int, now as int),
                out@ == fold::concat(all.take(i as int), f),
            decreases uids.len() - i,
        {
            proof {
                fold::lemma_prefix(all, i as int);
                assert(all[i as int] == uids@[i as int]@);
                assert(all[i as int].valid());
            }
            uids[i].push_inactive(&mut out, added, now);
            i = i + 1;
        }
        assert(all.take(i as int) =~= all);
        out
    }

    /// All that is inactive by the clock.
    pub fn list_inactive(&self, inactivity_added_seconds: Option<u64>) -> (r: String)
        requires
            self.wf(),
        ensures
            exists|now: i64| #[trigger]
                self@.inactive_text(self@.added(inactivity_added_seconds), now as int) == r@,
    {
        self.list_inactive_at(inactivity_added_seconds, curtime())
    }

    /// The fields of one uid.
    pub fn get_uid_info(&self, uid: &str) -> (r: Vec<Piece>)
        requires
            self.wf(),
        ensures
            value::pieces(r@) == self@.uid_info(uid@),
    {
        match self.uid(uid) {
            None => plain("Uid not found".to_owned()),
            Some(u) => {
                let ghost fields = u@.fields;
                let ghost f = uid_info_line();
                let mut report: Vec<Piece> = Vec::new();
                let mut i: usize = 0;
                assert(value::pieces(report@) =~= fold::concat(fields.take(0), f));
                while i < u.fields.len()
                    invariant
                        i <= u.fields@.len(),
                        fields == u@.fields,
                        f == uid_info_line(),
                        value::pieces(report@) == fold::concat(fields.take(i as int), f),
                    decreases u.fields.len() - i,
                {
                    proof {
                        fold::lemma_prefix(fields, i as int);
                        assert(fields[i as int] == u.fields@[i as int]@);
                    }
                    u.fields[i].push_line(&mut report, ", ts_differences_stddev: ", "\n");
                    i = i + 1;
                }
                assert(fields.take(i as int) =~= fields);
                push_text(&mut report, "\n".to_owned());
                assert(value::pieces(report@) =~= self@.uid_info(uid@));
                report
            },
        }
    }

    /// One field of one uid.
    pub fn get_uid_field_info(&self, uid: &str, measurement: &str, fieldname: &str) -> (r: Vec<
        Piece,
    >)
        requires
            self.wf(),
        ensures
            value::pieces(r@) == self@.uid_field_info(uid@, measurement@, fieldname@),
    {
        proof {
            self.lemma_valid();
        }
        match self.uid(uid) {
            None => plain("Uid not found".to_owned()),
            Some(u) => {
                assert(u@.valid());
                match u.field(fieldname, measurement) {
                    None => {
                        let mut message: String = String::new();
                        message.append("No fields found for uid ");
                        message.append(uid);
                        assert(message@ =~= "No fields found for uid "@ + uid@);
                        plain(message)
                    },
                    Some(field) => {
                        let mut head: String = String::new();
                        head.append("Uid: \"");
                        head.append(uid);
                        head.append("\", measurement: \"");
                        head.append(measurement);
                        head.append("\", last seen: ");
                        text::push_decimal(&mut head, field.last_seen_ts as i128);
                        head.append(", seen_count: ");
                        text::push_decimal(&mut head, field.seen_count as i128);
                        head.append(", ts_differences_mean: ");
                        text::push_decimal(&mut head, field.last_5_ts.differences_mean());
                        head.append(", ts_differences_stddev: ");
                        let mut tail: String = String::new();
                        tail.append(", last_timestamps: ");
                        tail.append(field.last_5_ts.to_string().as_str());
                        let ghost expected = self@.uid_field_info(uid@, measurement@, fieldname@);
                        assert(head@ =~= expected[0]->Text_0);
                        assert(tail@ =~= expected[2]->Text_0);
                        let mut report: Vec<Piece> = Vec::new();
                        push_text(&mut report, head);
                        push_piece(
                            &mut report,
                            Piece::Deviation(field.last_5_ts.differences_spread()),
                        );
                        push_text(&mut report, tail);
                        assert(value::pieces(report@) =~= expected);
                        report
                    },
                }
            },
        }
    }
}

} // verus!
