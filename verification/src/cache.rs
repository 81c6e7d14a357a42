//! The cache of the last value of every field of every uid, with its statistics.

use vstd::hash_map::StringHashMap;
use vstd::prelude::*;
use vstd::string::*;

use crate::config::Precision;
use crate::fold;
use crate::invariants;
use crate::model;
use crate::model::{CacheView, FieldView, ItemView, Sending, UidView};
use crate::stats_utils::{curtime, Last5Timestamps};
use crate::text;
use crate::value::InfluxValue;

verus! {

// ---------------------------------------------------------------- fields

/// A field of a uid: its last value, and when and how often it was seen.
#[derive(Debug)]
pub struct FieldInfo {
    pub name: String,
    pub measurement: String,
    pub value: InfluxValue,
    pub first_seen_ts: i64,
    pub last_seen_ts: i64,
    pub last_changed_ts: i64,
    pub last_sent_ts: i64,
    pub last_5_ts: Last5Timestamps,
    pub seen_count: usize,
    pub changed_count: usize,
}

impl View for FieldInfo {
    type V = FieldView;

    open spec fn view(&self) -> FieldView {
        FieldView {
            name: self.name@,
            measurement: self.measurement@,
            value: self.value@,
            first_seen_ts: self.first_seen_ts,
            last_seen_ts: self.last_seen_ts,
            last_changed_ts: self.last_changed_ts,
            last_sent_ts: self.last_sent_ts,
            last_5_ts: self.last_5_ts@,
            seen_count: self.seen_count as nat,
            changed_count: self.changed_count as nat,
        }
    }
}

/// The models of the fields.
pub open spec fn field_views(fields: Seq<FieldInfo>) -> Seq<FieldView> {
    fields.map_values(|f: FieldInfo| f@)
}

/// The models of the names and values of a line.
pub open spec fn item_views(set: Seq<(String, InfluxValue)>) -> Seq<ItemView> {
    set.map_values(|item: (String, InfluxValue)| (item.0@, item.1@))
}

/// The model of an optional text.
pub open spec fn text_view(t: Option<String>) -> Option<Seq<char>> {
    match t {
        Some(t) => Some(t@),
        None => None,
    }
}

impl FieldInfo {
    fn fresh(name: &String, measurement: &str, value: &InfluxValue, timestamp: i64) -> (r: Self)
        ensures
            r@ == FieldView::fresh(name@, measurement@, value@, timestamp),
    {
        FieldInfo {
            name: name.clone(),
            measurement: measurement.to_owned(),
            value: value.clone(),
            first_seen_ts: timestamp,
            last_seen_ts: timestamp,
            last_changed_ts: timestamp,
            last_sent_ts: timestamp,
            last_5_ts: Last5Timestamps::new_with_val(timestamp),
            seen_count: 1,
            changed_count: 0,
        }
    }

    fn update(&mut self, value: &InfluxValue, timestamp: i64) -> (r: Sending)
        requires
            old(self).seen_count < usize::MAX,
            old(self)@.valid(),
        ensures
            final(self)@ == old(self)@.updated(value@, timestamp),
            r == old(self)@.sending(value@, timestamp),
    {
        let sending: Sending = if self.value != *value {
            self.last_changed_ts = timestamp;
            self.last_sent_ts = timestamp;
            self.changed_count = self.changed_count + 1;
            Sending::Changed
        } else if timestamp as i128 >= self.last_sent_ts as i128 + 60 {
            self.last_sent_ts = timestamp;
            Sending::Timeout
        } else {
            Sending::Suppressed
        };
        self.value = value.clone();
        if self.last_seen_ts < timestamp {
            self.last_seen_ts = timestamp;
        }
        self.seen_count = self.seen_count + 1;
        self.last_5_ts.push(timestamp);
        sending
    }
}

/// Where the field of this name and measurement stands.
fn find_field(fields: &Vec<FieldInfo>, name: &String, measurement: &String) -> (r: Option<usize>)
    requires
        model::distinct_fields(field_views(fields@)),
    ensures
        match r {
            Some(i) => i < fields@.len() && model::known_field(
                field_views(fields@),
                name@,
                measurement@,
            ) && i == model::field_place(field_views(fields@), name@, measurement@),
            None => !model::known_field(field_views(fields@), name@, measurement@),
        },
{
    let ghost views = field_views(fields@);
    let mut i: usize = 0;
    while i < fields.len()
        invariant
            i <= fields@.len(),
            views == field_views(fields@),
            model::distinct_fields(views),
            forall|k: int| 0 <= k < i ==> !(#[trigger] views[k]).is(name@, measurement@),
        decreases fields.len() - i,
    {
        if fields[i].name == *name && fields[i].measurement == *measurement {
            proof {
                let j = model::field_place(views, name@, measurement@);
                assert(views[i as int].is(name@, measurement@));
                assert(views[i as int].is(views[j].name, views[j].measurement));
            }
            return Some(i);
        }
        i = i + 1;
    }
    None
}

/// How the values of a line were dealt with.
struct Tally {
    initial: usize,
    changed: usize,
    timeout: usize,
    suppressed: usize,
}

/// Records the values of a line in the fields of a uid.
fn merge_fields(
    fields: &mut Vec<FieldInfo>,
    set: &Vec<(String, InfluxValue)>,
    timestamp: i64,
    measurement: &str,
    Ghost(seen): Ghost<nat>,
    Ghost(oldest): Ghost<i64>,
    Ghost(newest): Ghost<i64>,
) -> (r: Tally)
    requires
        invariants::fields_within(field_views(old(fields)@), seen, oldest, newest),
        seen + set@.len() <= usize::MAX,
    ensures
        field_views(final(fields)@) == model::with_values(
            field_views(old(fields)@),
            item_views(set@),
            measurement@,
            timestamp,
        ),
        forall|sending: Sending|
            (match sending {
                Sending::Initial => r.initial,
                Sending::Changed => r.changed,
                Sending::Timeout => r.timeout,
                Sending::Suppressed => r.suppressed,
            }) == #[trigger] model::sendings(
                field_views(old(fields)@),
                item_views(set@),
                measurement@,
                timestamp,
                sending,
            ),
{
    let measurement_text: String = measurement.to_owned();
    let ghost before = field_views(fields@);
    let ghost items = item_views(set@);
    let mut tally: Tally = Tally { initial: 0, changed: 0, timeout: 0, suppressed: 0 };
    let mut i: usize = 0;
    assert(items.take(0) =~= Seq::<ItemView>::empty());
    while i < set.len()
        invariant
            i <= set@.len(),
            items == item_views(set@),
            measurement_text@ == measurement@,
            seen + set@.len() <= usize::MAX,
            invariants::fields_within(before, seen, oldest, newest),
            field_views(fields@) == model::with_values(
                before,
                items.take(i as int),
                measurement@,
                timestamp,
            ),
            tally.initial == model::sendings(
                before,
                items.take(i as int),
                measurement@,
                timestamp,
                Sending::Initial,
            ),
            tally.changed == model::sendings(
                before,
                items.take(i as int),
                measurement@,
                timestamp,
                Sending::Changed,
            ),
            tally.timeout == model::sendings(
                before,
                items.take(i as int),
                measurement@,
                timestamp,
                Sending::Timeout,
            ),
            tally.suppressed == model::sendings(
                before,
                items.take(i as int),
                measurement@,
                timestamp,
                Sending::Suppressed,
            ),
        decreases set.len() - i,
    {
        let ghost now = field_views(fields@);
        proof {
            fold::lemma_prefix(items, i as int);
            invariants::lemma_with_values(
                before,
                items.take(i as int),
                measurement@,
                timestamp,
                seen,
                oldest,
                newest,
            );
            assert(items[i as int] == (set@[i as int].0@, set@[i as int].1@));
        }
        match find_field(fields, &set[i].0, &measurement_text) {
            Some(at) => {
                proof {
                    assert(now[at as int].valid());
                }
                let sending: Sending = fields[at].update(&set[i].1, timestamp);
                match sending {
                    Sending::Initial => {},
                    Sending::Changed => {
                        tally.changed = tally.changed + 1;
                    },
                    Sending::Timeout => {
                        tally.timeout = tally.timeout + 1;
                    },
                    Sending::Suppressed => {
                        tally.suppressed = tally.suppressed + 1;
                    },
                }
            },
            None => {
                fields.push(FieldInfo::fresh(&set[i].0, measurement, &set[i].1, timestamp));
                tally.initial = tally.initial + 1;
            },
        }
        assert(field_views(fields@) =~= model::with_value(
            now,
            items[i as int],
            measurement@,
            timestamp,
        ));
        i = i + 1;
    }
    assert(items.take(i as int) =~= items);
    tally
}

/// The fields that the first line of a uid makes.
fn first_fields(
    set: &Vec<(String, InfluxValue)>,
    timestamp: i64,
    measurement: &str,
) -> (r: Vec<FieldInfo>)
    ensures
        field_views(r@) == model::first_values(item_views(set@), measurement@, timestamp),
{
    let measurement_text: String = measurement.to_owned();
    let ghost items = item_views(set@);
    let mut fields: Vec<FieldInfo> = Vec::new();
    let mut i: usize = 0;
    assert(field_views(fields@) =~= model::first_values(items.take(0), measurement@, timestamp));
    while i < set.len()
        invariant
            i <= set@.len(),
            items == item_views(set@),
            measurement_text@ == measurement@,
            field_views(fields@) == model::first_values(
                items.take(i as int),
                measurement@,
                timestamp,
            ),
        decreases set.len() - i,
    {
        let ghost now = field_views(fields@);
        proof {
            fold::lemma_prefix(items, i as int);
            invariants::lemma_first_values(items.take(i as int), measurement@, timestamp);
            assert(items[i as int] == (set@[i as int].0@, set@[i as int].1@));
        }
        let field: FieldInfo = FieldInfo::fresh(&set[i].0, measurement, &set[i].1, timestamp);
        match find_field(&fields, &set[i].0, &measurement_text) {
            Some(at) => {
                fields.set(at, field);
            },
            None => {
                fields.push(field);
            },
        }
        assert(field_views(fields@) =~= model::first_values(
            items.take(i + 1),
            measurement@,
            timestamp,
        ));
        i = i + 1;
    }
    assert(items.take(i as int) =~= items);
    fields
}

// ---------------------------------------------------------------- uids

/// A uid: when and how often it was seen, and its fields.
#[derive(Debug)]
pub struct UidInfo {
    pub uid: String,
    pub first_seen_ts: i64,
    pub last_seen_ts: i64,
    pub seen_count: usize,
    pub equipment_tag: Option<String>,
    pub fields: Vec<FieldInfo>,
}

impl View for UidInfo {
    type V = UidView;

    open spec fn view(&self) -> UidView {
        UidView {
            uid: self.uid@,
            first_seen_ts: self.first_seen_ts,
            last_seen_ts: self.last_seen_ts,
            seen_count: self.seen_count as nat,
            equipment_tag: text_view(self.equipment_tag),
            fields: field_views(self.fields@),
        }
    }
}

impl UidInfo {
    /// The field of this name and measurement.
    pub fn field(&self, name: &str, measurement: &str) -> (r: Option<&FieldInfo>)
        requires
            model::distinct_fields(self@.fields),
        ensures
            match r {
                Some(f) => model::known_field(self@.fields, name@, measurement@) && f@
                    == self@.fields[model::field_place(self@.fields, name@, measurement@)],
                None => !model::known_field(self@.fields, name@, measurement@),
            },
    {
        match find_field(&self.fields, &name.to_owned(), &measurement.to_owned()) {
            Some(i) => {
                assert(self@.fields[i as int] == self.fields@[i as int]@);
                Some(&self.fields[i])
            },
            None => None,
        }
    }
}

/// The models of the uids.
pub open spec fn uid_views(uids: Seq<UidInfo>) -> Seq<UidView> {
    uids.map_values(|u: UidInfo| u@)
}

// ---------------------------------------------------------------- the cache

/// The cache. The uids stand in the order in which they were first seen, and are found by name
/// through an index.
pub struct ValueCache {
    output_measurement: String,
    precision: Precision,
    created_timestamp: i64,
    first_value_ts: i64,
    last_value_ts: i64,
    minimum_inactivity_seconds: u64,
    kafka_message_count: usize,
    ilp_line_count: usize,
    fields_seen_count: usize,
    fields_changed_count: usize,
    fields_sent_changed_count: usize,
    fields_sent_timeout_count: usize,
    fields_sent_initial_count: usize,
    fields_sent_suppressed_count: usize,
    uids: Vec<UidInfo>,
    index: StringHashMap<usize>,
}

impl View for ValueCache {
    type V = CacheView;

    closed spec fn view(&self) -> CacheView {
        CacheView {
            output_measurement: self.output_measurement@,
            precision: self.precision,
            created_timestamp: self.created_timestamp,
            first_value_ts: self.first_value_ts,
            last_value_ts: self.last_value_ts,
            minimum_inactivity_seconds: self.minimum_inactivity_seconds,
            kafka_message_count: self.kafka_message_count as nat,
            ilp_line_count: self.ilp_line_count as nat,
            fields_seen_count: self.fields_seen_count as nat,
            fields_changed_count: self.fields_changed_count as nat,
            fields_sent_changed_count: self.fields_sent_changed_count as nat,
            fields_sent_timeout_count: self.fields_sent_timeout_count as nat,
            fields_sent_initial_count: self.fields_sent_initial_count as nat,
            fields_sent_suppressed_count: self.fields_sent_suppressed_count as nat,
            uids: uid_views(self.uids@),
        }
    }
}

/// The timestamps and counts over everything that a cache has seen.
#[derive(Debug, Clone, Copy)]
pub struct Totals {
    pub created_timestamp: i64,
    pub first_value_ts: i64,
    pub last_value_ts: i64,
    pub kafka_message_count: usize,
    pub ilp_line_count: usize,
    pub fields_seen_count: usize,
    pub fields_changed_count: usize,
    pub fields_sent_changed_count: usize,
    pub fields_sent_timeout_count: usize,
    pub fields_sent_initial_count: usize,
    pub fields_sent_suppressed_count: usize,
}

/// The index says of every uid where it stands, and of nothing else.
spec fn indexes(index: Map<Seq<char>, usize>, uids: Seq<UidInfo>) -> bool {
    &&& forall|i: int|
        0 <= i < uids.len() ==> index.contains_key((#[trigger] uids[i]).uid@)
            && index[uids[i].uid@] == i
    &&& forall|k: Seq<char>| #[trigger]
        index.contains_key(k) ==> index[k] < uids.len() && uids[index[k] as int].uid@ == k
}

impl ValueCache {
    spec fn indexed(&self) -> bool {
        indexes(self.index@, self.uids@)
    }

    /// The representation is in order, and what it stands for is valid.
    pub closed spec fn wf(&self) -> bool {
        self.indexed() && self@.valid()
    }

    /// A well-formed cache is valid, and its counters fit.
    pub proof fn lemma_valid(&self)
        requires
            self.wf(),
        ensures
            self@.valid(),
            self@.fields_seen_count <= usize::MAX,
            self@.kafka_message_count <= usize::MAX,
            self@.ilp_line_count <= usize::MAX,
            self@.uids.len() <= usize::MAX,
    {
        assert(self.uids.len() == self@.uids.len());
    }

    /// A cache that has seen nothing, created at `now`.
    pub fn new_at(
        output_measurement: String,
        inactivity_threshold: u64,
        precision: Precision,
        now: i64,
    ) -> (r: Self)
        ensures
            r.wf(),
            r@ == CacheView::empty(output_measurement@, inactivity_threshold, precision, now),
    {
        let r: ValueCache = ValueCache {
            output_measurement,
            precision,
            created_timestamp: now,
            first_value_ts: i64::MAX,
            last_value_ts: i64::MIN,
            minimum_inactivity_seconds: inactivity_threshold,
            kafka_message_count: 0,
            ilp_line_count: 0,
            fields_seen_count: 0,
            fields_changed_count: 0,
            fields_sent_changed_count: 0,
            fields_sent_timeout_count: 0,
            fields_sent_initial_count: 0,
            fields_sent_suppressed_count: 0,
            uids: Vec::new(),
            index: StringHashMap::new(),
        };
        assert(r@.uids =~= Seq::<UidView>::empty());
        r
    }

    /// A cache that has seen nothing, created now.
    pub fn new(
        output_measurement: String,
        inactivity_threshold: u64,
        precision: Precision,
    ) -> (r: Self)
        ensures
            r.wf(),
            exists|now: i64| #[trigger]
                CacheView::empty(output_measurement@, inactivity_threshold, precision, now) == r@,
    {
        ValueCache::new_at(output_measurement, inactivity_threshold, precision, curtime())
    }

    /// The timestamps and counts over everything seen.
    pub fn totals(&self) -> (r: Totals)
        ensures
            r.created_timestamp == self@.created_timestamp,
            r.first_value_ts == self@.first_value_ts,
            r.last_value_ts == self@.last_value_ts,
            r.kafka_message_count == self@.kafka_message_count,
            r.ilp_line_count == self@.ilp_line_count,
            r.fields_seen_count == self@.fields_seen_count,
            r.fields_changed_count == self@.fields_changed_count,
            r.fields_sent_changed_count == self@.fields_sent_changed_count,
            r.fields_sent_timeout_count == self@.fields_sent_timeout_count,
            r.fields_sent_initial_count == self@.fields_sent_initial_count,
            r.fields_sent_suppressed_count == self@.fields_sent_suppressed_count,
    {
        Totals {
            created_timestamp: self.created_timestamp,
            first_value_ts: self.first_value_ts,
            last_value_ts: self.last_value_ts,
            kafka_message_count: self.kafka_message_count,
            ilp_line_count: self.ilp_line_count,
            fields_seen_count: self.fields_seen_count,
            fields_changed_count: self.fields_changed_count,
            fields_sent_changed_count: self.fields_sent_changed_count,
            fields_sent_timeout_count: self.fields_sent_timeout_count,
            fields_sent_initial_count: self.fields_sent_initial_count,
            fields_sent_suppressed_count: self.fields_sent_suppressed_count,
        }
    }

    /// The measurement under which the statistics are reported.
    pub fn output_measurement(&self) -> (r: &str)
        ensures
            r@ == self@.output_measurement,
    {
        self.output_measurement.as_str()
    }

    /// The precision of the timestamps.
    pub fn precision(&self) -> (r: Precision)
        ensures
            r == self@.precision,
    {
        self.precision
    }

    /// Counts one more message.
    pub fn count_message(&mut self)
        requires
            old(self).wf(),
            old(self)@.kafka_message_count < usize::MAX,
        ensures
            final(self).wf(),
            final(self)@ == old(self)@.with_counts(
                old(self)@.kafka_message_count + 1,
                old(self)@.ilp_line_count,
            ),
    {
        self.kafka_message_count = self.kafka_message_count + 1;
    }

    /// Counts one more line.
    pub fn count_line(&mut self)
        requires
            old(self).wf(),
            old(self)@.ilp_line_count < usize::MAX,
        ensures
            final(self).wf(),
            final(self)@ == old(self)@.with_counts(
                old(self)@.kafka_message_count,
                old(self)@.ilp_line_count + 1,
            ),
    {
        self.ilp_line_count = self.ilp_line_count + 1;
    }

    /// The uids, in the order in which they were first seen.
    pub fn uids(&self) -> (r: &Vec<UidInfo>)
        ensures
            uid_views(r@) == self@.uids,
    {
        &self.uids
    }

    /// The uid of this name.
    pub fn uid(&self, uid: &str) -> (r: Option<&UidInfo>)
        requires
            self.wf(),
        ensures
            match r {
                Some(u) => model::known_uid(self@.uids, uid@) && u@ == self@.uids[model::uid_place(
                    self@.uids,
                    uid@,
                )],
                None => !model::known_uid(self@.uids, uid@),
            },
    {
        match self.find(uid) {
            Some(i) => {
                assert(self@.uids[i as int] == self.uids@[i as int]@);
                Some(&self.uids[i])
            },
            None => None,
        }
    }

    /// The seconds that a silence must exceed: those given, or the cache's own.
    pub fn added_seconds(&self, seconds: Option<u64>) -> (r: u64)
        ensures
            r == self@.added(seconds),
    {
        match seconds {
            Some(s) => s,
            None => self.minimum_inactivity_seconds,
        }
    }

    /// Where the uid of this name stands.
    fn find(&self, uid: &str) -> (r: Option<usize>)
        requires
            self.indexed(),
            model::distinct_uids(self@.uids),
        ensures
            match r {
                Some(i) => i < self.uids@.len() && model::known_uid(self@.uids, uid@) && i
                    == model::uid_place(self@.uids, uid@) && self@.uids[i as int].uid == uid@,
                None => !model::known_uid(self@.uids, uid@),
            },
    {
        match self.index.get(uid) {
            Some(i) => {
                proof {
                    let j = model::uid_place(self@.uids, uid@);
                    assert(self@.uids[*i as int].uid == uid@);
                    assert(self@.uids[j].uid == uid@);
                }
                Some(*i)
            },
            None => {
                proof {
                    if model::known_uid(self@.uids, uid@) {
                        let j = model::uid_place(self@.uids, uid@);
                        assert(self.uids@[j].uid@ == uid@);
                    }
                }
                None
            },
        }
    }

    /// Whether the counters have room for a line of `values` values for `uid`.
    pub fn has_room(&self, uid: &str, values: usize) -> (r: bool)
        requires
            self.wf(),
        ensures
            r == self@.room(uid@, values as nat),
    {
        if self.fields_seen_count > usize::MAX - values {
            return false;
        }
        match self.find(uid) {
            Some(i) => {
                assert(self@.uids[i as int] == self.uids@[i as int]@);
                self.uids[i].seen_count < usize::MAX
            },
            None => true,
        }
    }

    /// Records the values of a line for `uid`.
    pub fn add_or_update_fields(
        &mut self,
        uid: &str,
        equipment_tag: Option<String>,
        field_set: &Vec<(String, InfluxValue)>,
        timestamp: i64,
        measurement: &str,
    )
        requires
            old(self).wf(),
            old(self)@.room(uid@, field_set@.len()),
        ensures
            final(self).wf(),
            final(self)@ == old(self)@.recorded(
                uid@,
                text_view(equipment_tag),
                item_views(field_set@),
                timestamp,
                measurement@,
            ),
    {
        let ghost before = self@;
        let ghost items = item_views(field_set@);
        let ghost tag = text_view(equipment_tag);
        proof {
            invariants::law_recorded_valid(before, uid@, tag, items, timestamp, measurement@);
        }
        let found: Option<usize> = self.find(uid);
        self.fields_seen_count = self.fields_seen_count + field_set.len();
        if timestamp < self.first_value_ts {
            self.first_value_ts = timestamp;
        }
        if timestamp > self.last_value_ts {
            self.last_value_ts = timestamp;
        }
        match found {
            Some(i) => {
                let ghost known = before.uids[i as int];
                proof {
                    assert(known == self.uids@[i as int]@);
                    invariants::lemma_uid_fields_within(before, i as int);
                    invariants::lemma_with_values(
                        known.fields,
                        items,
                        measurement@,
                        timestamp,
                        before.fields_seen_count,
                        before.first_value_ts,
                        known.last_seen_ts,
                    );
                }
                if self.uids[i].last_seen_ts < timestamp {
                    self.uids[i].last_seen_ts = timestamp;
                }
                self.uids[i].seen_count = self.uids[i].seen_count + 1;
                let tally: Tally = merge_fields(
                    &mut self.uids[i].fields,
                    field_set,
                    timestamp,
                    measurement,
                    Ghost(before.fields_seen_count),
                    Ghost(before.first_value_ts),
                    Ghost(known.last_seen_ts),
                );
                self.fields_changed_count = self.fields_changed_count + tally.changed;
                self.fields_sent_changed_count = self.fields_sent_changed_count + tally.changed;
                self.fields_sent_timeout_count = self.fields_sent_timeout_count + tally.timeout;
                self.fields_sent_suppressed_count = self.fields_sent_suppressed_count
                    + tally.suppressed;
                self.fields_sent_initial_count = self.fields_sent_initial_count + tally.initial;
                assert(self.uids@[i as int]@ == known.updated(items, timestamp, measurement@));
                assert(self@.uids =~= before.recorded(
                    uid@,
                    tag,
                    items,
                    timestamp,
                    measurement@,
                ).uids);
                assert(self.indexed());
            },
            None => {
                let fields: Vec<FieldInfo> = first_fields(field_set, timestamp, measurement);
                self.fields_sent_initial_count = self.fields_sent_initial_count + field_set.len();
                self.index.insert(uid.to_owned(), self.uids.len());
                self.uids.push(
                    UidInfo {
                        uid: uid.to_owned(),
                        first_seen_ts: timestamp,
                        last_seen_ts: timestamp,
                        seen_count: 1,
                        equipment_tag,
                        fields,
                    },
                );
                assert(self@.uids =~= before.recorded(
                    uid@,
                    tag,
                    items,
                    timestamp,
                    measurement@,
                ).uids);
                proof {
                    assert forall|k: int| 0 <= k < self.uids@.len() implies self.index@.contains_key(
                        (#[trigger] self.uids@[k]).uid@,
                    ) && self.index@[self.uids@[k].uid@] == k by {
                        if k < before.uids.len() {
                            assert(before.uids[k].uid == self.uids@[k].uid@);
                        }
                    }
                }
                assert(self.indexed());
            },
        }
    }

    /// Removes the uid of this name, if at `now` it is inactive.
    pub fn remove_uid_if_inactive_at(
        &mut self,
        uid: &str,
        inactivity_added_seconds: Option<u64>,
        now: i64,
    ) -> (r: Result<(), String>)
        requires
            old(self).wf(),
        ensures
            final(self).wf(),
            removal_answer(
                old(self)@,
                final(self)@,
                uid@,
                old(self)@.added(inactivity_added_seconds),
                now as int,
                r,
            ),
    {
        let added: u64 = self.added_seconds(inactivity_added_seconds);
        match self.find(uid) {
            None => Err("UID not found".to_owned()),
            Some(i) => {
                assert(self@.uids[i as int] == self.uids@[i as int]@);
                if self.uids[i].is_inactive_at(added, now) {
                    proof {
                        invariants::law_removed_valid(self@, i as int);
                    }
                    let _ = self.uids.remove(i);
                    assert(self@.uids =~= old(self)@.uids.remove(i as int));
                    self.index = index_of(&self.uids);
                    Ok(())
                } else {
                    let mut message: String = String::new();
                    message.append("Uid ");
                    message.append(uid);
                    message.append(" was not inactive");
                    assert(message@ =~= "Uid "@ + uid@ + " was not inactive"@);
                    Err(message)
                }
            },
        }
    }

    /// Removes the uid of this name, if it is inactive by the clock.
    pub fn remove_uid_if_inactive(
        &mut self,
        uid: &str,
        inactivity_added_seconds: Option<u64>,
    ) -> (r: Result<(), String>)
        requires
            old(self).wf(),
        ensures
            final(self).wf(),
            exists|now: i64| #[trigger]
                removal_answer(
                    old(self)@,
                    final(self)@,
                    uid@,
                    old(self)@.added(inactivity_added_seconds),
                    now as int,
                    r,
                ),
    {
        self.remove_uid_if_inactive_at(uid, inactivity_added_seconds, curtime())
    }

    /// Removes the uids that are inactive at `now`, and the inactive fields of the others. Tells
    /// how many were removed.
    pub fn remove_inactive_uids_and_fields_at(
        &mut self,
        inactivity_added_seconds: Option<u64>,
        now: i64,
    ) -> (r: String)
        requires
            old(self).wf(),
        ensures
            final(self).wf(),
            final(self)@ == old(self)@.pruned(
                old(self)@.added(inactivity_added_seconds),
                now as int,
            ),
            r@ == removal_text(old(self)@, old(self)@.added(inactivity_added_seconds), now as int),
    {
        let added: u64 = self.added_seconds(inactivity_added_seconds);
        let ghost before = self@;
        let ghost all = self@.uids;
        let ghost p = model::active_uid(added as int, now as int);
        let ghost g = model::pruned_uid(added as int, now as int);
        let ghost whole = model::inactive_uid(added as int, now as int);
        let ghost lost = model::fields_of_inactive(added as int, now as int);
        let ghost single = model::fields_where(
            p,
            model::inactive_field(added as int, now as int),
        );
        proof {
            invariants::law_pruned_valid(before, added as int, now as int);
        }
        let mut uids: Vec<UidInfo> = Vec::new();
        std::mem::swap(&mut uids, &mut self.uids);
        let ghost source = uids@;
        let mut kept: Vec<UidInfo> = Vec::new();
        let mut count_whole_uids: usize = 0;
        let mut count_whole_uids_fields: usize = 0;
        let mut count_single_fields: usize = 0;
        let n: usize = uids.len();
        assert(uid_views(kept@) =~= all.take(0).filter(p).map_values(g)) by {
            reveal(Seq::filter);
        }
        for u in it: uids.into_iter()
            invariant
                it.seq() == source,
                all == uid_views(source),
                n == source.len(),
                all == before.uids,
                before.valid(),
                before.fields_seen_count <= usize::MAX,
                p == model::active_uid(added as int, now as int),
                g == model::pruned_uid(added as int, now as int),
                whole == model::inactive_uid(added as int, now as int),
                lost == model::fields_of_inactive(added as int, now as int),
                single == model::fields_where(
                    p,
                    model::inactive_field(added as int, now as int),
                ),
                uid_views(kept@) == all.take(it.index() as int).filter(p).map_values(g),
                count_whole_uids <= it.index(),
                count_whole_uids == fold::count(all.take(it.index() as int), whole),
                count_whole_uids_fields == fold::total(all.take(it.index() as int), lost),
                count_single_fields == fold::total(all.take(it.index() as int), single),
        {
            let ghost i = it.index() as int;
            let ghost kept_before = kept@;
            proof {
                fold::lemma_prefix(all, i);
                assert(all[i] == u@);
                lemma_removed_bound(all.take(i + 1), added as int, now as int);
                fold::lemma_total_prefix(all, i + 1, model::field_number());
                lemma_removed_bound(all.take(i), added as int, now as int);
            }
            if u.is_inactive_at(added, now) {
                count_whole_uids_fields = count_whole_uids_fields + u.fields.len();
                count_whole_uids = count_whole_uids + 1;
                proof {
                    reveal(Seq::filter);
                }
            } else {
                let (fields, removed) = keep_active(u.fields, added, now);
                count_single_fields = count_single_fields + removed;
                let rest: UidInfo = UidInfo {
                    uid: u.uid,
                    first_seen_ts: u.first_seen_ts,
                    last_seen_ts: u.last_seen_ts,
                    seen_count: u.seen_count,
                    equipment_tag: u.equipment_tag,
                    fields,
                };
                kept.push(rest);
                proof {
                    reveal(Seq::filter);
                    assert(uid_views(kept@) =~= uid_views(kept_before).push(g(all[i])));
                    assert(all.take(i + 1).filter(p) == all.take(i).filter(p).push(all[i]));
                    assert(all.take(i + 1).filter(p).map_values(g) =~= all.take(i).filter(
                        p,
                    ).map_values(g).push(g(all[i])));
                }
            }
        }
        assert(all.take(n as int) =~= all);
        self.uids = kept;
        self.index = index_of(&self.uids);
        assert(self@.uids == before.pruned(added as int, now as int).uids);
        let mut result: String = String::new();
        result.append("Inactive uid removed: ");
        text::push_decimal(&mut result, count_whole_uids as i128);
        result.append(", fields count for these uids: ");
        text::push_decimal(&mut result, count_whole_uids_fields as i128);
        result.append("\nInactive fields in active uids removed: ");
        text::push_decimal(&mut result, count_single_fields as i128);
        assert(result@ =~= removal_text(before, added as int, now as int));
        result
    }

    /// Removes the uids that are inactive by the clock, and the inactive fields of the others.
    pub fn remove_inactive_uids_and_fields(
        &mut self,
        inactivity_added_seconds: Option<u64>,
    ) -> (r: String)
        requires
            old(self).wf(),
        ensures
            final(self).wf(),
            exists|now: i64|
                final(self)@ == #[trigger] old(self)@.pruned(
                    old(self)@.added(inactivity_added_seconds),
                    now as int,
                ) && r@ == removal_text(
                    old(self)@,
                    old(self)@.added(inactivity_added_seconds),
                    now as int,
                ),
    {
        self.remove_inactive_uids_and_fields_at(inactivity_added_seconds, curtime())
    }
}

// ---------------------------------------------------------------- removal

/// What a request to remove one uid is answered, and what it does: an unknown uid and an active
/// one are refused and nothing changes; an inactive one is taken out.
pub open spec fn removal_answer(
    before: CacheView,
    after: CacheView,
    uid: Seq<char>,
    added: int,
    now: int,
    answer: Result<(), String>,
) -> bool {
    if !model::known_uid(before.uids, uid) {
        answer is Err && answer->Err_0@ == "UID not found"@ && after == before
    } else {
        let i = model::uid_place(before.uids, uid);
        if before.uids[i].inactive(added, now) {
            answer is Ok && after == before.with_uids(before.uids.remove(i))
        } else {
            answer is Err && answer->Err_0@ == "Uid "@ + uid + " was not inactive"@ && after
                == before
        }
    }
}

/// What a removal of everything inactive tells.
pub open spec fn removal_text(cache: CacheView, added: int, now: int) -> Seq<char> {
    "Inactive uid removed: "@ + text::decimal(cache.uids_inactive(added, now) as int)
        + ", fields count for these uids: "@ + text::decimal(
        cache.fields_of_inactive_uids(added, now),
    ) + "\nInactive fields in active uids removed: "@ + text::decimal(
        cache.inactive_fields_of_active_uids(added, now),
    )
}

/// What is removed is at most what there is.
proof fn lemma_removed_bound(uids: Seq<UidView>, added: int, now: int)
    ensures
        0 <= fold::total(uids, model::fields_of_inactive(added, now)),
        0 <= fold::total(
            uids,
            model::fields_where(
                model::active_uid(added, now),
                model::inactive_field(added, now),
            ),
        ),
        fold::total(uids, model::fields_of_inactive(added, now)) + fold::total(
            uids,
            model::fields_where(
                model::active_uid(added, now),
                model::inactive_field(added, now),
            ),
        ) <= fold::total(uids, model::field_number()),
    decreases uids.len(),
{
    if uids.len() > 0 {
        lemma_removed_bound(uids.drop_last(), added, now);
        fold::lemma_count_bound(uids.last().fields, model::inactive_field(added, now));
    }
}

/// The index of the uids.
fn index_of(uids: &Vec<UidInfo>) -> (r: StringHashMap<usize>)
    requires
        model::distinct_uids(uid_views(uids@)),
    ensures
        indexes(r@, uids@),
{
    let ghost all = uid_views(uids@);
    let mut index: StringHashMap<usize> = StringHashMap::new();
    let mut i: usize = 0;
    while i < uids.len()
        invariant
            i <= uids@.len(),
            all == uid_views(uids@),
            model::distinct_uids(all),
            forall|k: int|
                0 <= k < i ==> index@.contains_key((#[trigger] uids@[k]).uid@)
                    && index@[uids@[k].uid@] == k,
            forall|key: Seq<char>| #[trigger]
                index@.contains_key(key) ==> index@[key] < i && uids@[index@[key] as int].uid@
                    == key,
        decreases uids.len() - i,
    {
        proof {
            assert forall|k: int| 0 <= k < i implies (#[trigger] uids@[k]).uid@
                != uids@[i as int].uid@ by {
                assert(all[k].uid == uids@[k].uid@);
                assert(all[i as int].uid == uids@[i as int].uid@);
            }
        }
        index.insert(uids[i].uid.clone(), i);
        i = i + 1;
    }
    index
}

/// The fields that are not inactive, and how many are.
fn keep_active(fields: Vec<FieldInfo>, added: u64, now: i64) -> (r: (Vec<FieldInfo>, usize))
    ensures
        field_views(r.0@) == field_views(fields@).filter(
            model::active_field(added as int, now as int),
        ),
        r.1 == fold::count(
            field_views(fields@),
            model::inactive_field(added as int, now as int),
        ),
{
    let ghost source = fields@;
    let ghost all = field_views(source);
    let ghost p = model::active_field(added as int, now as int);
    let ghost q = model::inactive_field(added as int, now as int);
    let n: usize = fields.len();
    let mut kept: Vec<FieldInfo> = Vec::new();
    let mut removed: usize = 0;
    assert(field_views(kept@) =~= all.take(0).filter(p)) by {
        reveal(Seq::filter);
    }
    for f in it: fields.into_iter()
        invariant
            it.seq() == source,
            all == field_views(source),
            n == source.len(),
            p == model::active_field(added as int, now as int),
            q == model::inactive_field(added as int, now as int),
            field_views(kept@) == all.take(it.index() as int).filter(p),
            removed <= it.index(),
            removed == fold::count(all.take(it.index() as int), q),
    {
        let ghost i = it.index() as int;
        let ghost kept_before = kept@;
        proof {
            fold::lemma_prefix(all, i);
            assert(all[i] == f@);
            reveal(Seq::filter);
        }
        if f.is_inactive_at(added, now) {
            removed = removed + 1;
        } else {
            kept.push(f);
            assert(field_views(kept@) =~= field_views(kept_before).push(all[i]));
        }
    }
    assert(all.take(n as int) =~= all);
    (kept, removed)
}

} // verus!
